use vstd::prelude::*;
use crate::castling::Castling;
use crate::chess_color::ChessColor;
use crate::chess_error::ChessError;
use crate::chess_square::{ChessSquare, PieceKind};
use crate::grid::{grid_of, grid_set, on_board, wf_grid, Grid, Squares};

verus! {

/// One ply: the piece that moves, where from and where to, and what else
/// happens with it.
#[derive(Clone, Copy, Debug, PartialEq, Eq, Hash, Structural)]
pub struct ChessMove {
    pub piece: ChessSquare,
    pub x: usize,
    pub y: usize,
    pub to_x: usize,
    pub to_y: usize,
    /// The piece that leaves the board, if any. For an en-passant capture
    /// it does not stand on the destination square.
    pub capture: Option<ChessSquare>,
    /// The piece a pawn turns into on its farthest rank.
    pub promotion: Option<ChessSquare>,
    pub castling: Option<Castling>,
    pub en_passant: bool,
}

impl Castling {
    /// The side that castles.
    pub open spec fn color(self) -> ChessColor {
        match self {
            Castling::WhiteShort | Castling::WhiteLong => ChessColor::White,
            Castling::BlackShort | Castling::BlackLong => ChessColor::Black,
        }
    }

    /// The row on which the castling takes place.
    pub open spec fn row(self) -> int {
        match self {
            Castling::WhiteShort | Castling::WhiteLong => 0,
            Castling::BlackShort | Castling::BlackLong => 7,
        }
    }

    /// The king that castles.
    pub open spec fn king(self) -> ChessSquare {
        match self {
            Castling::WhiteShort | Castling::WhiteLong => ChessSquare::WhiteKing,
            Castling::BlackShort | Castling::BlackLong => ChessSquare::BlackKing,
        }
    }

    /// The rook that castles.
    pub open spec fn rook(self) -> ChessSquare {
        match self {
            Castling::WhiteShort | Castling::WhiteLong => ChessSquare::WhiteRook,
            Castling::BlackShort | Castling::BlackLong => ChessSquare::BlackRook,
        }
    }

    /// The column the king starts from.
    pub open spec fn king_from(self) -> int {
        4
    }

    /// The column the king ends on.
    pub open spec fn king_to(self) -> int {
        match self {
            Castling::WhiteShort | Castling::BlackShort => 6,
            Castling::WhiteLong | Castling::BlackLong => 2,
        }
    }

    /// The column the rook starts from.
    pub open spec fn rook_from(self) -> int {
        match self {
            Castling::WhiteShort | Castling::BlackShort => 7,
            Castling::WhiteLong | Castling::BlackLong => 0,
        }
    }

    /// The column the rook ends on, which is also the column the king
    /// passes over.
    pub open spec fn rook_to(self) -> int {
        match self {
            Castling::WhiteShort | Castling::BlackShort => 5,
            Castling::WhiteLong | Castling::BlackLong => 3,
        }
    }

    /// Returns the row on which the castling takes place.
    pub fn home_row(&self) -> (row: usize)
        ensures
            row == self.row(),
    {
        match self {
            Castling::WhiteShort | Castling::WhiteLong => 0,
            Castling::BlackShort | Castling::BlackLong => 7,
        }
    }

    /// Returns the king that castles.
    pub fn king_piece(&self) -> (king: ChessSquare)
        ensures
            king == self.king(),
    {
        match self {
            Castling::WhiteShort | Castling::WhiteLong => ChessSquare::WhiteKing,
            Castling::BlackShort | Castling::BlackLong => ChessSquare::BlackKing,
        }
    }

    /// Returns the rook that castles.
    pub fn rook_piece(&self) -> (rook: ChessSquare)
        ensures
            rook == self.rook(),
    {
        match self {
            Castling::WhiteShort | Castling::WhiteLong => ChessSquare::WhiteRook,
            Castling::BlackShort | Castling::BlackLong => ChessSquare::BlackRook,
        }
    }

    /// Returns the column the king ends on.
    pub fn king_target(&self) -> (column: usize)
        ensures
            column == self.king_to(),
    {
        match self {
            Castling::WhiteShort | Castling::BlackShort => 6,
            Castling::WhiteLong | Castling::BlackLong => 2,
        }
    }

    /// Returns the column the rook starts from.
    pub fn rook_home(&self) -> (column: usize)
        ensures
            column == self.rook_from(),
    {
        match self {
            Castling::WhiteShort | Castling::BlackShort => 7,
            Castling::WhiteLong | Castling::BlackLong => 0,
        }
    }

    /// Returns the column the rook ends on.
    pub fn rook_target(&self) -> (column: usize)
        ensures
            column == self.rook_to(),
    {
        match self {
            Castling::WhiteShort | Castling::BlackShort => 5,
            Castling::WhiteLong | Castling::BlackLong => 3,
        }
    }
}

/// The pawn of the given colour.
pub open spec fn pawn_of(color: ChessColor) -> ChessSquare {
    match color {
        ChessColor::White => ChessSquare::WhitePawn,
        ChessColor::Black => ChessSquare::BlackPawn,
    }
}

/// The direction in which a pawn of the given colour advances.
pub open spec fn forward(color: ChessColor) -> int {
    match color {
        ChessColor::White => 1,
        ChessColor::Black => -1,
    }
}

impl ChessMove {
    /// Whether the move starts on the board.
    pub open spec fn from_on_board(self) -> bool {
        on_board(self.x as int, self.y as int)
    }

    /// Whether the move ends on the board.
    pub open spec fn to_on_board(self) -> bool {
        on_board(self.to_x as int, self.to_y as int)
    }

    /// The piece that stands on the destination once the move is made.
    pub open spec fn placed(self) -> ChessSquare {
        match self.promotion {
            Some(p) => p,
            None => self.piece,
        }
    }

    /// What the destination held before the move: for an ordinary move the
    /// captured piece, or nothing.
    pub open spec fn displaced(self) -> ChessSquare {
        match self.capture {
            Some(p) => p,
            None => ChessSquare::Empty,
        }
    }
}

/// Whether the board holds, on the move's origin, the piece that the move
/// declares.
pub open spec fn origin_holds_piece(g: Grid, m: ChessMove) -> bool {
    m.from_on_board() && m.piece.is_piece() && g[m.y as int][m.x as int] == m.piece
}

/// Whether the board allows the castling move to be carried out: the move
/// is the king's, from its home square, and the rook stands on its own.
pub open spec fn castle_applies(g: Grid, m: ChessMove, c: Castling) -> bool {
    &&& m.piece == c.king()
    &&& m.x == c.king_from()
    &&& m.y == c.row()
    &&& g[c.row()][c.king_from()] == c.king()
    &&& g[c.row()][c.rook_from()] == c.rook()
}

/// Whether the board allows the en-passant capture to be carried out: a
/// pawn steps diagonally forward onto an empty square, and the enemy pawn
/// it captures stands beside it, on the column it moves to.
pub open spec fn en_passant_applies(g: Grid, m: ChessMove) -> bool {
    &&& m.to_on_board()
    &&& m.piece == pawn_of(m.piece.color())
    &&& m.capture == Some(pawn_of(m.piece.color().opposite()))
    &&& m.to_y == m.y + forward(m.piece.color())
    &&& (m.to_x == m.x + 1 || m.to_x + 1 == m.x)
    &&& g[m.to_y as int][m.to_x as int] == ChessSquare::Empty
    &&& g[m.y as int][m.to_x as int] == pawn_of(m.piece.color().opposite())
}

/// The board after the castling move.
pub open spec fn castled(g: Grid, c: Castling) -> Grid {
    let g1 = grid_set(g, c.rook_from(), c.row(), ChessSquare::Empty);
    let g2 = grid_set(g1, c.king_to(), c.row(), c.king());
    let g3 = grid_set(g2, c.rook_to(), c.row(), c.rook());
    grid_set(g3, c.king_from(), c.row(), ChessSquare::Empty)
}

/// The board after a move that is not a castling: the origin is vacated,
/// the piece, or what it is promoted to, stands on the destination, and
/// the victim of an en-passant capture is gone.
pub open spec fn moved(g: Grid, m: ChessMove) -> Grid {
    let g1 = grid_set(g, m.x as int, m.y as int, ChessSquare::Empty);
    let g2 = grid_set(g1, m.to_x as int, m.to_y as int, m.placed());
    if m.en_passant {
        grid_set(g2, m.to_x as int, m.y as int, ChessSquare::Empty)
    } else {
        g2
    }
}

/// What applying a move to a board gives: the new board, or the reason for
/// which the move is refused.
pub open spec fn do_move_outcome(g: Grid, m: ChessMove) -> Result<Grid, ChessError> {
    if !origin_holds_piece(g, m) {
        Err(ChessError::InconsistentState)
    } else {
        match m.castling {
            Some(c) => if castle_applies(g, m, c) {
                Ok(castled(g, c))
            } else {
                Err(ChessError::IllegalMove)
            },
            None => if !m.to_on_board() || (m.en_passant && !en_passant_applies(g, m)) {
                Err(ChessError::IllegalMove)
            } else {
                Ok(moved(g, m))
            },
        }
    }
}

/// Whether the board looks as it must after the castling move.
pub open spec fn castle_reverts(g: Grid, m: ChessMove, c: Castling) -> bool {
    &&& m.piece == c.king()
    &&& g[c.row()][c.king_to()] == c.king()
    &&& g[c.row()][c.rook_to()] == c.rook()
}

/// The board before the castling move.
pub open spec fn uncastled(g: Grid, c: Castling) -> Grid {
    let g1 = grid_set(g, c.rook_from(), c.row(), c.rook());
    let g2 = grid_set(g1, c.king_to(), c.row(), ChessSquare::Empty);
    let g3 = grid_set(g2, c.rook_to(), c.row(), ChessSquare::Empty);
    grid_set(g3, c.king_from(), c.row(), c.king())
}

/// Whether the board holds, on the move's destination, the piece that the
/// move has put there.
pub open spec fn destination_holds_piece(g: Grid, m: ChessMove) -> bool {
    &&& m.from_on_board()
    &&& m.to_on_board()
    &&& m.piece.is_piece()
    &&& g[m.to_y as int][m.to_x as int] == m.placed()
}

/// The board before a move that is not a castling: the destination holds
/// what it held, the piece is back on its origin, and the victim of an
/// en-passant capture is back beside it.
pub open spec fn unmoved(g: Grid, m: ChessMove) -> Grid {
    if m.en_passant {
        let g1 = grid_set(g, m.to_x as int, m.to_y as int, ChessSquare::Empty);
        let g2 = grid_set(g1, m.to_x as int, m.y as int, m.displaced());
        grid_set(g2, m.x as int, m.y as int, m.piece)
    } else {
        let g1 = grid_set(g, m.to_x as int, m.to_y as int, m.displaced());
        grid_set(g1, m.x as int, m.y as int, m.piece)
    }
}

/// What taking a move back gives: the earlier board, or the reason for
/// which the move cannot have been the last one.
pub open spec fn undo_move_outcome(g: Grid, m: ChessMove) -> Result<Grid, ChessError> {
    match m.castling {
        Some(c) => if castle_reverts(g, m, c) {
            Ok(uncastled(g, c))
        } else {
            Err(ChessError::InconsistentState)
        },
        None => if !destination_holds_piece(g, m) {
            Err(ChessError::InconsistentState)
        } else if m.en_passant && m.capture is None {
            Err(ChessError::IllegalMove)
        } else {
            Ok(unmoved(g, m))
        },
    }
}

/// What a move onto a square captures: the piece that stands there, if one
/// does.
pub open spec fn capture_of(target: ChessSquare) -> Option<ChessSquare> {
    if target == ChessSquare::Empty {
        None
    } else {
        Some(target)
    }
}

/// Whether the squares strictly between the king's and the rook's home
/// squares are empty.
pub open spec fn castle_path_clear(g: Grid, c: Castling) -> bool {
    match c {
        Castling::WhiteShort | Castling::BlackShort => {
            &&& g[c.row()][5] == ChessSquare::Empty
            &&& g[c.row()][6] == ChessSquare::Empty
        },
        Castling::WhiteLong | Castling::BlackLong => {
            &&& g[c.row()][1] == ChessSquare::Empty
            &&& g[c.row()][2] == ChessSquare::Empty
            &&& g[c.row()][3] == ChessSquare::Empty
        },
    }
}

/// The pieces a pawn of the given colour can turn into, in the order in
/// which the moves are listed.
pub open spec fn promotion_pieces(color: ChessColor) -> Seq<ChessSquare> {
    seq![
        ChessSquare::piece(color, PieceKind::Bishop),
        ChessSquare::piece(color, PieceKind::Knight),
        ChessSquare::piece(color, PieceKind::Queen),
        ChessSquare::piece(color, PieceKind::Rook),
    ]
}

/// Whether a castling move is one that the player's king can make on the
/// board by the way it moves: it is the king of the castling's colour, the
/// squares between king and rook are empty, and the move says where the
/// king arrives and nothing else.
pub open spec fn castle_fits(g: Grid, player: ChessColor, m: ChessMove, c: Castling) -> bool {
    &&& m.piece == c.king()
    &&& c.color() == player
    &&& castle_path_clear(g, c)
    &&& m.to_x == c.king_to()
    &&& m.to_y == c.row()
    &&& m.capture is None
    &&& m.promotion is None
    &&& !m.en_passant
}

/// Whether the move promotes exactly when a pawn arrives on the first or
/// the last row, and then to a piece a pawn can turn into.
pub open spec fn promotion_fits(player: ChessColor, m: ChessMove) -> bool {
    match m.promotion {
        Some(p) => {
            &&& m.piece == pawn_of(player)
            &&& (m.to_y == 0 || m.to_y == 7)
            &&& promotion_pieces(player).contains(p)
        },
        None => !(m.piece == pawn_of(player) && (m.to_y == 0 || m.to_y == 7)),
    }
}

/// Whether a move that is not a castling is one that the player's piece
/// can make on the board: it ends on the board and not on a piece of the
/// player's, it says what it captures, and it promotes when it must.
pub open spec fn ordinary_fits(g: Grid, player: ChessColor, m: ChessMove) -> bool {
    &&& m.to_on_board()
    &&& promotion_fits(player, m)
    &&& if m.en_passant {
        en_passant_applies(g, m) && m.promotion is None
    } else {
        &&& m.capture == capture_of(g[m.to_y as int][m.to_x as int])
        &&& !g[m.to_y as int][m.to_x as int].has_color(player)
    }
}

/// Whether a move agrees with the board it is made on: the player's piece
/// that it names stands on its origin, and what it says of its destination
/// and its capture is what the board shows.
pub open spec fn move_fits(g: Grid, player: ChessColor, m: ChessMove) -> bool {
    &&& origin_holds_piece(g, m)
    &&& m.piece.has_color(player)
    &&& match m.castling {
        Some(c) => castle_fits(g, player, m, c),
        None => ordinary_fits(g, player, m),
    }
}

/// Taking back a move that was just made gives the board back: if a move
/// agrees with the board and is applied, undoing it on the result restores
/// every square.
pub proof fn lemma_undo_restores(g: Grid, player: ChessColor, m: ChessMove)
    requires
        wf_grid(g),
        move_fits(g, player, m),
        do_move_outcome(g, m) is Ok,
    ensures
        undo_move_outcome(do_move_outcome(g, m)->Ok_0, m) == Ok::<Grid, ChessError>(g),
{
    let h = do_move_outcome(g, m)->Ok_0;
    match m.castling {
        Some(c) => {
            assert(uncastled(h, c) =~~= g);
        },
        None => {
            assert(unmoved(h, m) =~~= g);
        },
    }
}

/// Returns the move of a piece to a square, with nothing captured.
pub fn simple_move(piece: &ChessSquare, x: usize, y: usize, to_x: usize, to_y: usize) -> (m:
    ChessMove)
    ensures
        m == (ChessMove {
            piece: *piece,
            x,
            y,
            to_x,
            to_y,
            capture: None,
            promotion: None,
            castling: None,
            en_passant: false,
        }),
{
    ChessMove {
        piece: *piece,
        x,
        y,
        to_x,
        to_y,
        capture: None,
        promotion: None,
        castling: None,
        en_passant: false,
    }
}

/// Applies a move to a board in place. A refused move leaves the board as
/// it was.
pub fn do_move(chess_move: &ChessMove, board: &mut Squares) -> (result: Result<(), ChessError>)
    ensures
        match result {
            Ok(_) => do_move_outcome(grid_of(*old(board)), *chess_move) matches Ok(g)
                && grid_of(*final(board)) == g,
            Err(e) => do_move_outcome(grid_of(*old(board)), *chess_move) == Err::<Grid, ChessError>(e)
                && *final(board) == *old(board),
        },
{
    let m = *chess_move;
    if m.x >= 8 || m.y >= 8 || m.piece == ChessSquare::Empty || board[m.y][m.x] != m.piece {
        return Err(ChessError::InconsistentState);
    }
    match m.castling {
        Some(c) => {
            let row = c.home_row();
            if m.piece != c.king_piece() || m.x != 4 || m.y != row || board[row][4]
                != c.king_piece() || board[row][c.rook_home()] != c.rook_piece() {
                return Err(ChessError::IllegalMove);
            }
            board[row][c.rook_home()] = ChessSquare::Empty;
            board[row][c.king_target()] = c.king_piece();
            board[row][c.rook_target()] = c.rook_piece();
            board[row][4] = ChessSquare::Empty;
            assert(grid_of(*board) =~~= castled(grid_of(*old(board)), c));
        },
        None => {
            if m.to_x >= 8 || m.to_y >= 8 {
                return Err(ChessError::IllegalMove);
            }
            if m.en_passant && !en_passant_fits(&m, board) {
                return Err(ChessError::IllegalMove);
            }
            board[m.y][m.x] = ChessSquare::Empty;
            board[m.to_y][m.to_x] = match m.promotion {
                Some(p) => p,
                None => m.piece,
            };
            if m.en_passant {
                board[m.y][m.to_x] = ChessSquare::Empty;
            }
            assert(grid_of(*board) =~~= moved(grid_of(*old(board)), m));
        },
    }
    Ok(())
}

/// Tells whether the board allows an en-passant capture to be carried out.
fn en_passant_fits(m: &ChessMove, board: &Squares) -> (fits: bool)
    requires
        m.from_on_board(),
        m.to_on_board(),
        m.piece.is_piece(),
    ensures
        fits == en_passant_applies(grid_of(*board), *m),
{
    let color = m.piece.get_color();
    let (own, enemy) = match color {
        ChessColor::White => (ChessSquare::WhitePawn, ChessSquare::BlackPawn),
        ChessColor::Black => (ChessSquare::BlackPawn, ChessSquare::WhitePawn),
    };
    let forward_ok = match color {
        ChessColor::White => m.to_y == m.y + 1,
        ChessColor::Black => m.to_y + 1 == m.y,
    };
    m.piece == own && m.capture == Some(enemy) && forward_ok && (m.to_x == m.x + 1 || m.to_x + 1
        == m.x) && board[m.to_y][m.to_x] == ChessSquare::Empty && board[m.y][m.to_x] == enemy
}

/// Takes a move back on a board in place. A refused move leaves the board
/// as it was.
pub fn undo_move(chess_move: &ChessMove, board: &mut Squares) -> (result: Result<(), ChessError>)
    ensures
        match result {
            Ok(_) => undo_move_outcome(grid_of(*old(board)), *chess_move) matches Ok(g)
                && grid_of(*final(board)) == g,
            Err(e) => undo_move_outcome(grid_of(*old(board)), *chess_move) == Err::<
                Grid,
                ChessError,
            >(e) && *final(board) == *old(board),
        },
{
    let m = *chess_move;
    match m.castling {
        Some(c) => {
            let row = c.home_row();
            if m.piece != c.king_piece() || board[row][c.king_target()] != c.king_piece()
                || board[row][c.rook_target()] != c.rook_piece() {
                return Err(ChessError::InconsistentState);
            }
            board[row][c.rook_home()] = c.rook_piece();
            board[row][c.king_target()] = ChessSquare::Empty;
            board[row][c.rook_target()] = ChessSquare::Empty;
            board[row][4] = c.king_piece();
            assert(grid_of(*board) =~~= uncastled(grid_of(*old(board)), c));
        },
        None => {
            if m.x >= 8 || m.y >= 8 || m.to_x >= 8 || m.to_y >= 8 || m.piece
                == ChessSquare::Empty {
                return Err(ChessError::InconsistentState);
            }
            let placed = match m.promotion {
                Some(p) => p,
                None => m.piece,
            };
            if board[m.to_y][m.to_x] != placed {
                return Err(ChessError::InconsistentState);
            }
            let displaced = match m.capture {
                Some(p) => p,
                None => ChessSquare::Empty,
            };
            if m.en_passant {
                if m.capture.is_none() {
                    return Err(ChessError::IllegalMove);
                }
                board[m.to_y][m.to_x] = ChessSquare::Empty;
                board[m.y][m.to_x] = displaced;
            } else {
                board[m.to_y][m.to_x] = displaced;
            }
            board[m.y][m.x] = m.piece;
            assert(grid_of(*board) =~~= unmoved(grid_of(*old(board)), m));
        },
    }
    Ok(())
}

} // verus!
