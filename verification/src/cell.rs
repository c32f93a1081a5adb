//! One square of the board and the character that stands for it in a level
//! text.
use vstd::prelude::*;

verus! {

/// What a square holds. A square is a wall, or it is floor: plain floor or a
/// hall (a square that wants a block), empty or with a block or the player on
/// it.
#[derive(Clone, Copy, Debug, PartialEq, Eq, Structural)]
pub enum State {
    /// Plain floor with nothing on it.
    Nothing,
    /// A wall. Nothing ever stands on it and it never changes.
    Wall,
    /// A hall with nothing on it.
    Hall,
    /// A block on plain floor.
    Block,
    /// A block on a hall.
    BlockOnHall,
    /// The player on plain floor.
    Player,
    /// The player on a hall.
    PlayerOnHall,
}

impl State {
    /// The player stands here.
    pub open spec fn is_player(self) -> bool {
        self is Player || self is PlayerOnHall
    }

    /// A block stands here.
    pub open spec fn is_block(self) -> bool {
        self is Block || self is BlockOnHall
    }

    /// Floor with nothing on it: the player can walk here, a block can be
    /// pushed here.
    pub open spec fn is_free(self) -> bool {
        self is Nothing || self is Hall
    }

    /// The square is a hall, whatever stands on it.
    pub open spec fn on_hall(self) -> bool {
        self is Hall || self is BlockOnHall || self is PlayerOnHall
    }

    /// A hall that no block covers. The player standing on a hall does not
    /// cover it.
    pub open spec fn is_open_hall(self) -> bool {
        self is Hall || self is PlayerOnHall
    }

    /// The square once whatever stood on it has left.
    pub open spec fn floor(self) -> State {
        if self is Wall {
            State::Wall
        } else if self.on_hall() {
            State::Hall
        } else {
            State::Nothing
        }
    }

    /// The square once the player has stepped on it.
    pub open spec fn with_player(self) -> State {
        if self.on_hall() {
            State::PlayerOnHall
        } else {
            State::Player
        }
    }

    /// The square once a block has been pushed on it.
    pub open spec fn with_block(self) -> State {
        if self.on_hall() {
            State::BlockOnHall
        } else {
            State::Block
        }
    }

    /// The character that stands for a square in a level text.
    pub open spec fn glyph_of(self) -> char {
        match self {
            State::Nothing => ' ',
            State::Wall => '#',
            State::Hall => '.',
            State::Block => 'o',
            State::BlockOnHall => 'O',
            State::Player => 'p',
            State::PlayerOnHall => 'P',
        }
    }

    /// The square that a character of a level text stands for, if it stands
    /// for one.
    pub open spec fn of_glyph(c: char) -> Option<State> {
        if c == ' ' {
            Some(State::Nothing)
        } else if c == '#' {
            Some(State::Wall)
        } else if c == '.' {
            Some(State::Hall)
        } else if c == 'o' {
            Some(State::Block)
        } else if c == 'O' {
            Some(State::BlockOnHall)
        } else if c == 'p' {
            Some(State::Player)
        } else if c == 'P' {
            Some(State::PlayerOnHall)
        } else {
            None
        }
    }

    /// Reads one character of a level text.
    pub fn from_glyph(c: char) -> (r: Option<State>)
        ensures
            r == State::of_glyph(c),
    {
        match c {
            ' ' => Some(State::Nothing),
            '#' => Some(State::Wall),
            '.' => Some(State::Hall),
            'o' => Some(State::Block),
            'O' => Some(State::BlockOnHall),
            'p' => Some(State::Player),
            'P' => Some(State::PlayerOnHall),
            _ => None,
        }
    }

    /// The square once the player has stepped on it.
    pub fn entered(self) -> (r: State)
        ensures
            r == self.with_player(),
    {
        match self {
            State::Hall | State::BlockOnHall | State::PlayerOnHall => State::PlayerOnHall,
            _ => State::Player,
        }
    }

    /// The square once a block has been pushed on it.
    pub fn loaded(self) -> (r: State)
        ensures
            r == self.with_block(),
    {
        match self {
            State::Hall | State::BlockOnHall | State::PlayerOnHall => State::BlockOnHall,
            _ => State::Block,
        }
    }

    /// The square once whatever stood on it has left.
    pub fn emptied(self) -> (r: State)
        ensures
            r == self.floor(),
    {
        match self {
            State::Wall => State::Wall,
            State::Hall | State::BlockOnHall | State::PlayerOnHall => State::Hall,
            _ => State::Nothing,
        }
    }

    /// The character to draw for this square.
    pub fn glyph(self) -> (c: char)
        ensures
            c == self.glyph_of(),
    {
        match self {
            State::Nothing => ' ',
            State::Wall => '#',
            State::Hall => '.',
            State::Block => 'o',
            State::BlockOnHall => 'O',
            State::Player => 'p',
            State::PlayerOnHall => 'P',
        }
    }

    /// The character to draw for this square, as text of length one.
    pub fn glyph_str(self) -> (t: &'static str)
        ensures
            t@ == seq![self.glyph_of()],
    {
        proof {
            reveal_strlit(" ");
            reveal_strlit("#");
            reveal_strlit(".");
            reveal_strlit("o");
            reveal_strlit("O");
            reveal_strlit("p");
            reveal_strlit("P");
        }
        let t = match self {
            State::Nothing => " ",
            State::Wall => "#",
            State::Hall => ".",
            State::Block => "o",
            State::BlockOnHall => "O",
            State::Player => "p",
            State::PlayerOnHall => "P",
        };
        assert(t@ =~= seq![self.glyph_of()]);
        t
    }
}

/// Reading a square's character gives the square back.
pub proof fn lemma_glyph_read_back(s: State)
    ensures
        State::of_glyph(s.glyph_of()) == Some(s),
{
}

/// Drawing the square that a character stands for gives the character back,
/// and no two squares share a character.
pub proof fn lemma_glyph_drawn_back(c: char)
    requires
        State::of_glyph(c) is Some,
    ensures
        State::of_glyph(c)->0.glyph_of() == c,
{
}

} // verus!
