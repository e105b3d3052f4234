use vstd::prelude::*;

verus! {

/// The two sides of a game.
#[derive(Clone, Copy, Debug, PartialEq, Eq, Hash, Structural)]
pub enum ChessColor {
    White,
    Black,
}

impl ChessColor {
    /// The other side, as a mathematical function.
    pub open spec fn opposite(self) -> ChessColor {
        match self {
            ChessColor::White => ChessColor::Black,
            ChessColor::Black => ChessColor::White,
        }
    }

    /// Returns the other side.
    pub fn get_opposite(&self) -> (other: ChessColor)
        ensures
            other == self.opposite(),
            other != *self,
    {
        match self {
            ChessColor::White => ChessColor::Black,
            ChessColor::Black => ChessColor::White,
        }
    }
}

/// Taking the opposite twice gives the colour back, and no colour is its own
/// opposite.
pub proof fn lemma_opposite_involution(color: ChessColor)
    ensures
        color.opposite().opposite() == color,
        color.opposite() != color,
{
}

} // verus!
