use vstd::prelude::*;
use crate::chess_square::ChessSquare;

verus! {

/// The mathematical board: eight rows of eight squares, the row index
/// first. Row 0 is White's home rank and column 0 is the a-file.
pub type Grid = Seq<Seq<ChessSquare>>;

/// The board as the engine stores it.
pub type Squares = [[ChessSquare; 8]; 8];

/// Whether the coordinates name a square of the board.
pub open spec fn on_board(x: int, y: int) -> bool {
    0 <= x < 8 && 0 <= y < 8
}

/// Whether the grid has eight rows of eight squares.
pub open spec fn wf_grid(g: Grid) -> bool {
    g.len() == 8 && forall|y: int| 0 <= y < 8 ==> (#[trigger] g[y]).len() == 8
}

/// The grid that a stored board stands for.
pub open spec fn grid_of(board: Squares) -> Grid {
    Seq::new(8, |y: int| board[y]@)
}

/// The grid with one square replaced.
pub open spec fn grid_set(g: Grid, x: int, y: int, square: ChessSquare) -> Grid {
    g.update(y, g[y].update(x, square))
}

/// The grid of a stored board has eight rows of eight squares, and holds on
/// each what the board holds.
pub proof fn lemma_grid_of_wf(board: Squares)
    ensures
        wf_grid(grid_of(board)),
        forall|x: int, y: int| on_board(x, y) ==> #[trigger] grid_of(board)[y][x] == board[y][x],
{
}

/// Where a walk of `k` steps of size `d` from `start` arrives, for a step
/// of -1, 0 or 1.
pub open spec fn walked(start: int, d: int, k: int) -> int {
    if d == 1 {
        start + k
    } else if d == -1 {
        start - k
    } else {
        start
    }
}

} // verus!
