use vstd::prelude::*;
use crate::castling::{all_castling, Castling, CastlingRights};
use crate::chess_color::ChessColor;
use crate::chess_error::ChessError;
use crate::chess_move::{
    do_move,
    do_move_outcome,
    lemma_undo_restores,
    undo_move,
    undo_move_outcome,
    ChessMove,
};
use crate::move_laws::lemma_valid_move_fits;
use crate::chess_square::ChessSquare;
use crate::grid::{grid_of, lemma_grid_of_wf, wf_grid, Grid, Squares};
use crate::legality::{get_valid_moves, valid_moves};

verus! {

/// A position of a game: the board, the side to move, the castling moves
/// still allowed, the move that led here and the number of moves made.
#[derive(Clone, Copy, Debug, PartialEq, Eq)]
pub struct ChessBoard {
    pub last_move: Option<ChessMove>,
    pub squares: Squares,
    pub current_player: ChessColor,
    pub available_castling: CastlingRights,
    pub move_number: u32,
}

/// The mathematical position that a `ChessBoard` stands for.
pub struct Position {
    pub grid: Grid,
    pub player: ChessColor,
    pub rights: CastlingRights,
    pub last: Option<ChessMove>,
    pub ply: nat,
}

impl View for ChessBoard {
    type V = Position;

    open spec fn view(&self) -> Position {
        Position {
            grid: grid_of(self.squares),
            player: self.current_player,
            rights: self.available_castling,
            last: self.last_move,
            ply: self.move_number as nat,
        }
    }
}

/// Whether a move forfeits the right to a castling: it moves or captures
/// the king, or it moves or captures the rook on its home square.
pub open spec fn forfeits(m: ChessMove, c: Castling) -> bool {
    ||| m.piece == c.king()
    ||| m.capture == Some(c.king())
    ||| (m.piece == c.rook() && m.x == c.rook_from() && m.y == c.row())
    ||| (m.capture == Some(c.rook()) && m.to_x == c.rook_from() && m.to_y == c.row())
}

/// The castling rights that are left once a move is made: those that were
/// held and that the move does not forfeit.
pub open spec fn rights_after(rights: CastlingRights, m: ChessMove) -> CastlingRights {
    CastlingRights {
        white_short: rights.white_short && !forfeits(m, Castling::WhiteShort),
        white_long: rights.white_long && !forfeits(m, Castling::WhiteLong),
        black_short: rights.black_short && !forfeits(m, Castling::BlackShort),
        black_long: rights.black_long && !forfeits(m, Castling::BlackLong),
    }
}

impl Position {
    /// Whether the board of the position has its eight rows of eight
    /// squares.
    pub open spec fn wf(self) -> bool {
        wf_grid(self.grid)
    }

    /// The legal moves of the side to move.
    pub open spec fn valid_moves(self) -> Seq<ChessMove> {
        valid_moves(self.grid, self.player, self.last, self.rights)
    }

    /// The position that a move leads to: the move is made on the board,
    /// the other side is to move, the rights that the move forfeits are
    /// gone, and one more move has been made.
    pub open spec fn after(self, m: ChessMove) -> Position {
        Position {
            grid: do_move_outcome(self.grid, m)->Ok_0,
            player: self.player.opposite(),
            rights: rights_after(self.rights, m),
            last: Some(m),
            ply: self.ply + 1,
        }
    }

    /// The position that a move came from, given what cannot be read off
    /// the move: the move made before it and the castling rights held then.
    pub open spec fn before(
        self,
        m: ChessMove,
        last: Option<ChessMove>,
        rights: CastlingRights,
    ) -> Result<Position, ChessError> {
        if self.ply == 0 {
            Err(ChessError::InconsistentState)
        } else {
            match undo_move_outcome(self.grid, m) {
                Ok(g) => Ok(
                    Position {
                        grid: g,
                        player: self.player.opposite(),
                        rights,
                        last,
                        ply: (self.ply - 1) as nat,
                    },
                ),
                Err(e) => Err(e),
            }
        }
    }
}

/// Returns a copy of a board.
pub fn copy_board(board: &Squares) -> (copy: Squares)
    ensures
        copy == *board,
        grid_of(copy) == grid_of(*board),
{
    let mut copy = create_empty_board();
    let mut y: usize = 0;
    while y < 8
        invariant
            y <= 8,
            forall|a: int, b: int| 0 <= b < y && 0 <= a < 8 ==> copy[b][a] == board[b][a],
        decreases 8 - y,
    {
        let mut x: usize = 0;
        while x < 8
            invariant
                y < 8,
                x <= 8,
                forall|a: int, b: int| 0 <= b < y && 0 <= a < 8 ==> copy[b][a] == board[b][a],
                forall|a: int| 0 <= a < x ==> copy[y as int][a] == board[y as int][a],
            decreases 8 - x,
        {
            copy[y][x] = board[y][x];
            x = x + 1;
        }
        y = y + 1;
    }
    assert(grid_of(copy) =~~= grid_of(*board));
    assert forall|b: int| 0 <= b < 8 implies copy[b] == board[b] by {
        assert(copy[b] =~= board[b]);
    }
    assert(copy =~= *board);
    copy
}

/// What stands on the square (x, y) when a game starts.
pub open spec fn starting_square(x: int, y: int) -> ChessSquare {
    if y == 1 {
        ChessSquare::WhitePawn
    } else if y == 6 {
        ChessSquare::BlackPawn
    } else if y == 0 {
        if x == 0 || x == 7 {
            ChessSquare::WhiteRook
        } else if x == 1 || x == 6 {
            ChessSquare::WhiteKnight
        } else if x == 2 || x == 5 {
            ChessSquare::WhiteBishop
        } else if x == 3 {
            ChessSquare::WhiteQueen
        } else {
            ChessSquare::WhiteKing
        }
    } else if y == 7 {
        if x == 0 || x == 7 {
            ChessSquare::BlackRook
        } else if x == 1 || x == 6 {
            ChessSquare::BlackKnight
        } else if x == 2 || x == 5 {
            ChessSquare::BlackBishop
        } else if x == 3 {
            ChessSquare::BlackQueen
        } else {
            ChessSquare::BlackKing
        }
    } else {
        ChessSquare::Empty
    }
}

/// The board on which a game starts.
pub open spec fn starting_grid() -> Grid {
    Seq::new(8, |y: int| Seq::new(8, |x: int| starting_square(x, y)))
}

/// The board with no piece on it.
pub open spec fn empty_grid() -> Grid {
    Seq::new(8, |y: int| Seq::new(8, |x: int| ChessSquare::Empty))
}

/// Returns the board on which a game starts.
pub fn create_starting_board_position() -> (board: Squares)
    ensures
        grid_of(board) == starting_grid(),
{
    let e = ChessSquare::Empty;
    let wp = ChessSquare::WhitePawn;
    let bp = ChessSquare::BlackPawn;
    let board = [
        [
            ChessSquare::WhiteRook,
            ChessSquare::WhiteKnight,
            ChessSquare::WhiteBishop,
            ChessSquare::WhiteQueen,
            ChessSquare::WhiteKing,
            ChessSquare::WhiteBishop,
            ChessSquare::WhiteKnight,
            ChessSquare::WhiteRook,
        ],
        [wp, wp, wp, wp, wp, wp, wp, wp],
        [e, e, e, e, e, e, e, e],
        [e, e, e, e, e, e, e, e],
        [e, e, e, e, e, e, e, e],
        [e, e, e, e, e, e, e, e],
        [bp, bp, bp, bp, bp, bp, bp, bp],
        [
            ChessSquare::BlackRook,
            ChessSquare::BlackKnight,
            ChessSquare::BlackBishop,
            ChessSquare::BlackQueen,
            ChessSquare::BlackKing,
            ChessSquare::BlackBishop,
            ChessSquare::BlackKnight,
            ChessSquare::BlackRook,
        ],
    ];
    assert(grid_of(board) =~~= starting_grid());
    board
}

/// Returns the board with no piece on it.
pub fn create_empty_board() -> (board: Squares)
    ensures
        grid_of(board) == empty_grid(),
{
    let e = ChessSquare::Empty;
    let board = [
        [e, e, e, e, e, e, e, e],
        [e, e, e, e, e, e, e, e],
        [e, e, e, e, e, e, e, e],
        [e, e, e, e, e, e, e, e],
        [e, e, e, e, e, e, e, e],
        [e, e, e, e, e, e, e, e],
        [e, e, e, e, e, e, e, e],
        [e, e, e, e, e, e, e, e],
    ];
    assert(grid_of(board) =~~= empty_grid());
    board
}

/// The position in which a game starts.
pub open spec fn starting_position() -> Position {
    Position {
        grid: starting_grid(),
        player: ChessColor::White,
        rights: CastlingRights {
            white_short: true,
            white_long: true,
            black_short: true,
            black_long: true,
        },
        last: None,
        ply: 0,
    }
}

/// Returns the position in which a game starts: White to move, every
/// castling allowed, no move made.
pub fn create_new_board() -> (board: ChessBoard)
    ensures
        board@ == starting_position(),
{
    ChessBoard {
        last_move: None,
        squares: create_starting_board_position(),
        current_player: ChessColor::White,
        available_castling: all_castling(),
        move_number: 0,
    }
}

/// Tells whether a move is in a list.
pub fn contains_move(moves: &Vec<ChessMove>, chess_move: &ChessMove) -> (found: bool)
    ensures
        found == moves@.contains(*chess_move),
{
    let mut i: usize = 0;
    while i < moves.len()
        invariant
            i <= moves.len(),
            forall|j: int| 0 <= j < i ==> moves@[j] != *chess_move,
        decreases moves.len() - i,
    {
        if moves[i] == *chess_move {
            return true;
        }
        i = i + 1;
    }
    false
}

/// Returns the castling rights that are left once a move is made.
pub fn castling_after(rights: &CastlingRights, chess_move: &ChessMove) -> (left: CastlingRights)
    ensures
        left == rights_after(*rights, *chess_move),
        left@.subset_of(rights@),
{
    let m = *chess_move;
    let mut left = *rights;
    match m.piece {
        ChessSquare::BlackKing => {
            left.remove(Castling::BlackLong);
            left.remove(Castling::BlackShort);
        },
        ChessSquare::WhiteKing => {
            left.remove(Castling::WhiteLong);
            left.remove(Castling::WhiteShort);
        },
        ChessSquare::BlackRook => {
            if m.y == 7 && m.x == 0 {
                left.remove(Castling::BlackLong);
            } else if m.y == 7 && m.x == 7 {
                left.remove(Castling::BlackShort);
            }
        },
        ChessSquare::WhiteRook => {
            if m.y == 0 && m.x == 0 {
                left.remove(Castling::WhiteLong);
            } else if m.y == 0 && m.x == 7 {
                left.remove(Castling::WhiteShort);
            }
        },
        _ => {},
    }
    match m.capture {
        Some(ChessSquare::WhiteKing) => {
            left.remove(Castling::WhiteLong);
            left.remove(Castling::WhiteShort);
        },
        Some(ChessSquare::BlackKing) => {
            left.remove(Castling::BlackLong);
            left.remove(Castling::BlackShort);
        },
        Some(ChessSquare::WhiteRook) => {
            if m.to_y == 0 && m.to_x == 0 {
                left.remove(Castling::WhiteLong);
            } else if m.to_y == 0 && m.to_x == 7 {
                left.remove(Castling::WhiteShort);
            }
        },
        Some(ChessSquare::BlackRook) => {
            if m.to_y == 7 && m.to_x == 0 {
                left.remove(Castling::BlackLong);
            } else if m.to_y == 7 && m.to_x == 7 {
                left.remove(Castling::BlackShort);
            }
        },
        _ => {},
    }
    assert(left@.subset_of(rights@)) by {
        assert forall|c: Castling| left@.contains(c) implies rights@.contains(c) by {
            assert(left.holds(c));
        }
    }
    left
}

impl ChessBoard {
    /// Returns the legal moves of the side to move.
    pub fn get_valid_moves(&self) -> (moves: Vec<ChessMove>)
        ensures
            moves@ == self@.valid_moves(),
    {
        get_valid_moves(
            &self.last_move,
            &self.current_player,
            &self.squares,
            &self.available_castling,
        )
    }

    /// Returns the position that a legal move leads to.
    pub fn after_move(&self, chess_move: &ChessMove) -> (next: ChessBoard)
        requires
            self@.valid_moves().contains(*chess_move),
            self.move_number < u32::MAX,
        ensures
            next@ == self@.after(*chess_move),
    {
        proof {
            lemma_grid_of_wf(self.squares);
            lemma_valid_move_fits(self@, *chess_move);
        }
        let mut squares = copy_board(&self.squares);
        let _ = do_move(chess_move, &mut squares);
        let next = ChessBoard {
            last_move: Some(*chess_move),
            squares,
            current_player: self.current_player.get_opposite(),
            available_castling: castling_after(&self.available_castling, chess_move),
            move_number: self.move_number + 1,
        };
        assert(next@.grid =~~= self@.after(*chess_move).grid);
        next
    }

    /// Makes a move if it is among the legal moves of the position, and
    /// returns the position it leads to. Any other move is refused. The
    /// move counter must have room for a move that is made; a move that is
    /// refused needs none.
    pub fn do_move(&self, chess_move: &ChessMove) -> (result: Result<ChessBoard, ChessError>)
        requires
            self@.valid_moves().contains(*chess_move) ==> self.move_number < u32::MAX,
        ensures
            match result {
                Ok(next) => self@.valid_moves().contains(*chess_move) && next@ == self@.after(
                    *chess_move,
                ),
                Err(e) => e == ChessError::IllegalMove && !self@.valid_moves().contains(
                    *chess_move,
                ),
            },
    {
        let moves = self.get_valid_moves();
        if contains_move(&moves, chess_move) {
            Ok(self.after_move(chess_move))
        } else {
            Err(ChessError::IllegalMove)
        }
    }

    /// Takes a move back, and returns the position it was made in. What
    /// the move itself does not tell is given by the caller: the move made
    /// before it and the castling rights held then.
    pub fn undo_move(
        &self,
        chess_move: &ChessMove,
        last_move: Option<ChessMove>,
        available_castling: CastlingRights,
    ) -> (result: Result<ChessBoard, ChessError>)
        ensures
            match result {
                Ok(previous) => self@.before(*chess_move, last_move, available_castling)
                    == Ok::<Position, ChessError>(previous@),
                Err(e) => self@.before(*chess_move, last_move, available_castling) == Err::<
                    Position,
                    ChessError,
                >(e),
            },
    {
        if self.move_number == 0 {
            return Err(ChessError::InconsistentState);
        }
        let mut squares = copy_board(&self.squares);
        match undo_move(chess_move, &mut squares) {
            Ok(_) => {
                let previous = ChessBoard {
                    last_move,
                    squares,
                    current_player: self.current_player.get_opposite(),
                    available_castling,
                    move_number: self.move_number - 1,
                };
                assert(previous@.grid =~~= undo_move_outcome(self@.grid, *chess_move)->Ok_0);
                Ok(previous)
            },
            Err(e) => Err(e),
        }
    }

    /// Returns a copy of the position.
    pub fn clone(&self) -> (copy: ChessBoard)
        ensures
            copy == *self,
    {
        ChessBoard {
            last_move: self.last_move,
            squares: copy_board(&self.squares),
            current_player: self.current_player,
            available_castling: self.available_castling,
            move_number: self.move_number,
        }
    }
}

/// Castling rights only shrink: a right held after a move was held before
/// it, whatever the move.
pub proof fn lemma_rights_only_shrink(p: Position, m: ChessMove, c: Castling)
    requires
        p.after(m).rights.holds(c),
    ensures
        p.rights.holds(c),
        !forfeits(m, c),
{
}

/// Taking back a legal move gives the position back: the board, the side
/// to move, the castling rights, the move made before and the number of
/// moves made are what they were.
pub proof fn lemma_undo_gives_position_back(p: Position, m: ChessMove)
    requires
        p.wf(),
        p.valid_moves().contains(m),
    ensures
        p.after(m).before(m, p.last, p.rights) == Ok::<Position, ChessError>(p),
{
    lemma_valid_move_fits(p, m);
    lemma_undo_restores(p.grid, p.player, m);
}

} // verus!
