use vstd::prelude::*;
use crate::castling::Castling;
use crate::chess_board::ChessBoard;
use crate::chess_color::ChessColor;
use crate::chess_move::{capture_of, forward, pawn_of, ChessMove};
use crate::chess_square::{ChessSquare, PieceKind};
use crate::grid::{grid_of, on_board, Grid};

verus! {

/// The castling that a king's step of two columns along its home row
/// stands for.
pub open spec fn castling_meant(piece: ChessSquare, x: int, y: int, to_x: int, to_y: int) -> Option<
    Castling,
> {
    if y != to_y || !(to_x == x + 2 || to_x + 2 == x) {
        None
    } else if piece == ChessSquare::WhiteKing && y == 0 {
        Some(
            if to_x > x {
                Castling::WhiteShort
            } else {
                Castling::WhiteLong
            },
        )
    } else if piece == ChessSquare::BlackKing && y == 7 {
        Some(
            if to_x > x {
                Castling::BlackShort
            } else {
                Castling::BlackLong
            },
        )
    } else {
        None
    }
}

/// Whether the step of a pawn is a capture en passant: diagonally forward
/// onto an empty square.
pub open spec fn en_passant_meant(g: Grid, piece: ChessSquare, x: int, y: int, to_x: int, to_y: int) -> bool {
    &&& piece == pawn_of(piece.color())
    &&& x != to_x
    &&& g[to_y][to_x] == ChessSquare::Empty
}

/// The piece that a pawn arriving on the first or the last row is taken
/// to turn into: a queen.
pub open spec fn promotion_meant(piece: ChessSquare, to_y: int) -> Option<ChessSquare> {
    if piece == pawn_of(piece.color()) && (to_y == 0 || to_y == 7) {
        Some(ChessSquare::piece(piece.color(), PieceKind::Queen))
    } else {
        None
    }
}

/// The move that the choice of an origin and a destination stands for,
/// whether it is legal or not: none if either is off the board or no piece
/// stands on the origin; else the move of that piece, a castling if a king
/// steps two columns along its home row, with the capture of what stands
/// on the destination, or of an enemy pawn en passant if a pawn steps
/// diagonally onto an empty square, and with the promotion to a queen of a
/// pawn that arrives on the first or the last row.
pub open spec fn candidate(g: Grid, x: int, y: int, to_x: int, to_y: int) -> Option<ChessMove> {
    if !on_board(x, y) || !on_board(to_x, to_y) || g[y][x] == ChessSquare::Empty {
        None
    } else {
        let piece = g[y][x];
        let castling = castling_meant(piece, x, y, to_x, to_y);
        let passing = castling is None && en_passant_meant(g, piece, x, y, to_x, to_y);
        Some(
            ChessMove {
                piece,
                x: x as usize,
                y: y as usize,
                to_x: to_x as usize,
                to_y: to_y as usize,
                capture: if castling is Some {
                    None
                } else if passing {
                    Some(pawn_of(piece.color().opposite()))
                } else {
                    capture_of(g[to_y][to_x])
                },
                promotion: if castling is Some {
                    None
                } else {
                    promotion_meant(piece, to_y)
                },
                castling,
                en_passant: passing,
            },
        )
    }
}

impl ChessBoard {
    /// Returns the move that the choice of an origin and a destination
    /// stands for. The move is a candidate only: whether it is legal is
    /// for `do_move` to say.
    pub fn candidate_move(&self, x: usize, y: usize, to_x: usize, to_y: usize) -> (chosen: Option<
        ChessMove,
    >)
        ensures
            chosen == candidate(grid_of(self.squares), x as int, y as int, to_x as int, to_y as int),
    {
        if x >= 8 || y >= 8 || to_x >= 8 || to_y >= 8 {
            return None;
        }
        let piece = self.squares[y][x];
        if piece == ChessSquare::Empty {
            return None;
        }
        let target = self.squares[to_y][to_x];
        let color = piece.get_color();
        let two_columns = y == to_y && (to_x == x + 2 || to_x + 2 == x);
        let castling = if two_columns && piece == ChessSquare::WhiteKing && y == 0 {
            Some(
                if to_x > x {
                    Castling::WhiteShort
                } else {
                    Castling::WhiteLong
                },
            )
        } else if two_columns && piece == ChessSquare::BlackKing && y == 7 {
            Some(
                if to_x > x {
                    Castling::BlackShort
                } else {
                    Castling::BlackLong
                },
            )
        } else {
            None
        };
        let (own_pawn, enemy_pawn, queen) = match color {
            ChessColor::White => (
                ChessSquare::WhitePawn,
                ChessSquare::BlackPawn,
                ChessSquare::WhiteQueen,
            ),
            ChessColor::Black => (
                ChessSquare::BlackPawn,
                ChessSquare::WhitePawn,
                ChessSquare::BlackQueen,
            ),
        };
        let passing = castling.is_none() && piece == own_pawn && x != to_x && target
            == ChessSquare::Empty;
        let capture = if castling.is_some() {
            None
        } else if passing {
            Some(enemy_pawn)
        } else if target == ChessSquare::Empty {
            None
        } else {
            Some(target)
        };
        let promotion = if castling.is_none() && piece == own_pawn && (to_y == 0 || to_y == 7) {
            Some(queen)
        } else {
            None
        };
        Some(
            ChessMove {
                piece,
                x,
                y,
                to_x,
                to_y,
                capture,
                promotion,
                castling,
                en_passant: passing,
            },
        )
    }
}

} // verus!
