use vstd::prelude::*;
use crate::chess_board::{ChessBoard, Position};
use crate::chess_color::ChessColor;
use crate::chess_square::ChessSquare;
use crate::grid::{grid_of, lemma_grid_of_wf, Grid};
use crate::legality::legal_filter;
use crate::move_gen::potential_moves;
use crate::move_shape::lemma_potential_moves_fit;

verus! {

/// The worth of a piece in pawns, counted for White and against Black.
pub open spec fn piece_value(piece: ChessSquare) -> int {
    match piece {
        ChessSquare::Empty => 0,
        ChessSquare::WhitePawn => 1,
        ChessSquare::WhiteRook => 5,
        ChessSquare::WhiteKnight => 3,
        ChessSquare::WhiteBishop => 3,
        ChessSquare::WhiteQueen => 9,
        ChessSquare::WhiteKing => 1000,
        ChessSquare::BlackPawn => -1,
        ChessSquare::BlackRook => -5,
        ChessSquare::BlackKnight => -3,
        ChessSquare::BlackBishop => -3,
        ChessSquare::BlackQueen => -9,
        ChessSquare::BlackKing => -1000,
    }
}

/// The worth of the pieces on the first `n` squares of the board, the
/// squares numbered row by row.
pub open spec fn material_upto(g: Grid, n: nat) -> int
    decreases n,
{
    if n == 0 {
        0
    } else {
        material_upto(g, (n - 1) as nat) + piece_value(g[(n - 1) / 8][(n - 1) % 8])
    }
}

/// The worth of all the pieces on the board.
pub open spec fn material(g: Grid) -> int {
    material_upto(g, 64)
}

/// The number of legal moves of the side to move, counted for White and
/// against Black.
pub open spec fn mobility(p: Position) -> int {
    match p.player {
        ChessColor::White => p.valid_moves().len() as int,
        ChessColor::Black => -(p.valid_moves().len() as int),
    }
}

/// The score of a position in hundredths of a pawn: the material, and five
/// hundredths for each legal move of the side to move. A positive score
/// favours White.
pub open spec fn score(p: Position) -> int {
    100 * material(p.grid) + 5 * mobility(p)
}

/// The greatest distance from zero that a score can have.
pub open spec fn score_limit() -> int {
    6_417_920
}

/// No piece is worth more than a thousand pawns, so the first `n` squares
/// hold no more than a thousand pawns each, for either side.
proof fn lemma_material_bounds(g: Grid, n: nat)
    ensures
        -1000 * n <= material_upto(g, n) <= 1000 * n,
    decreases n,
{
    if n > 0 {
        lemma_material_bounds(g, (n - 1) as nat);
    }
}

/// A position has no more than 3584 legal moves.
pub proof fn lemma_valid_moves_len(p: Position)
    requires
        p.wf(),
    ensures
        p.valid_moves().len() <= 3584,
{
    lemma_potential_moves_fit(p.grid, p.player, p.last, p.rights);
    potential_moves(p.grid, p.player, p.last, p.rights).lemma_filter_len(
        legal_filter(p.grid, p.player),
    );
}

/// No score is farther from zero than the limit.
pub proof fn lemma_score_bounds(p: Position)
    requires
        p.wf(),
    ensures
        -score_limit() <= score(p) <= score_limit(),
{
    lemma_material_bounds(p.grid, 64);
    lemma_valid_moves_len(p);
}

/// Returns the worth of a piece in pawns, counted for White and against
/// Black.
pub fn get_piece_value(piece: &ChessSquare) -> (value: i64)
    ensures
        value == piece_value(*piece),
{
    match piece {
        ChessSquare::Empty => 0,
        ChessSquare::WhitePawn => 1,
        ChessSquare::WhiteRook => 5,
        ChessSquare::WhiteKnight => 3,
        ChessSquare::WhiteBishop => 3,
        ChessSquare::WhiteQueen => 9,
        ChessSquare::WhiteKing => 1000,
        ChessSquare::BlackPawn => -1,
        ChessSquare::BlackRook => -5,
        ChessSquare::BlackKnight => -3,
        ChessSquare::BlackBishop => -3,
        ChessSquare::BlackQueen => -9,
        ChessSquare::BlackKing => -1000,
    }
}

/// Returns the score of a position in hundredths of a pawn.
pub fn score_game_state(board: &ChessBoard) -> (value: i64)
    ensures
        value == score(board@),
        -score_limit() <= value <= score_limit(),
{
    let ghost g = grid_of(board.squares);
    let mut total: i64 = 0;
    let mut y: usize = 0;
    while y < 8
        invariant
            y <= 8,
            g == grid_of(board.squares),
            total == material_upto(g, (8 * y) as nat),
            -1000 * (8 * y) <= total <= 1000 * (8 * y),
        decreases 8 - y,
    {
        let mut x: usize = 0;
        while x < 8
            invariant
                y < 8,
                x <= 8,
                g == grid_of(board.squares),
                total == material_upto(g, (8 * y + x) as nat),
                -1000 * (8 * y + x) <= total <= 1000 * (8 * y + x),
            decreases 8 - x,
        {
            total = total + get_piece_value(&board.squares[y][x]);
            x = x + 1;
        }
        y = y + 1;
    }
    let moves = board.get_valid_moves();
    proof {
        lemma_grid_of_wf(board.squares);
        lemma_valid_moves_len(board@);
    }
    let count = moves.len() as i64;
    match board.current_player {
        ChessColor::White => 100 * total + 5 * count,
        ChessColor::Black => 100 * total - 5 * count,
    }
}

} // verus!
