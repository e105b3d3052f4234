use vstd::prelude::*;

verus! {

/// Why an operation of the engine was refused.
#[derive(Clone, Copy, Debug, PartialEq, Eq, Hash, Structural)]
pub enum ChessError {
    /// The notation text is malformed.
    Parse,
    /// The move is not among the legal moves, or a castling or en-passant
    /// move does not find on the board what it needs.
    IllegalMove,
    /// The board does not hold the piece that the move declares.
    InconsistentState,
    /// A best move was asked of a node that was never searched.
    SearchNotReady,
}

} // verus!
