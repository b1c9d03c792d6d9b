use vstd::prelude::*;

verus! {

/// One of the two tic-tac-toe players. Noughts always moves first.
#[derive(Clone, Copy, Debug, PartialEq, Eq, Structural)]
pub enum Player {
    Noughts,
    Crosses,
}

impl Player {
    /// The marker this player leaves in a board cell (empty cells hold 0).
    pub open spec fn spec_as_int(&self) -> u8 {
        match self {
            Player::Noughts => 1,
            Player::Crosses => 2,
        }
    }

    /// The player who moves after this one.
    pub open spec fn spec_other(self) -> Player {
        match self {
            Player::Noughts => Player::Crosses,
            Player::Crosses => Player::Noughts,
        }
    }

    #[verifier::when_used_as_spec(spec_as_int)]
    pub fn as_int(&self) -> (marker: u8)
        ensures
            marker == self.spec_as_int(),
    {
        match self {
            Player::Noughts => 1,
            Player::Crosses => 2,
        }
    }
}

} // verus!
