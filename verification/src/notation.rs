use vstd::prelude::*;
use vstd::string::StringExecFns;
use crate::castling::{Castling, CastlingRights};
use crate::chess_board::{ChessBoard, Position};
use crate::chess_color::ChessColor;
use crate::chess_move::ChessMove;
use crate::chess_square::{ChessSquare, PieceKind};
use crate::grid::{grid_of, Grid, Squares};

verus! {

/// The character that stands for a digit from 0 to 9.
pub open spec fn digit_char(d: int) -> char {
    if d == 0 {
        '0'
    } else if d == 1 {
        '1'
    } else if d == 2 {
        '2'
    } else if d == 3 {
        '3'
    } else if d == 4 {
        '4'
    } else if d == 5 {
        '5'
    } else if d == 6 {
        '6'
    } else if d == 7 {
        '7'
    } else if d == 8 {
        '8'
    } else {
        '9'
    }
}

/// The decimal numeral of a number, without leading zeros.
pub open spec fn decimal(n: nat) -> Seq<char>
    decreases n,
{
    if n < 10 {
        seq![digit_char(n as int)]
    } else {
        decimal(n / 10).push(digit_char((n % 10) as int))
    }
}

/// How a run of empty squares is written: its length as a digit, or
/// nothing if there is none.
pub open spec fn run_text(pending: int) -> Seq<char> {
    if pending <= 0 {
        Seq::empty()
    } else {
        seq![digit_char(pending)]
    }
}

/// How many empty squares end the first `i` squares of a row.
pub open spec fn pending_empties(row: Seq<ChessSquare>, i: int) -> int
    decreases i,
{
    if i <= 0 {
        0
    } else if row[i - 1] == ChessSquare::Empty {
        pending_empties(row, i - 1) + 1
    } else {
        0
    }
}

/// The text of the first `i` squares of a row without the run of empty
/// squares that ends them: a letter for each piece and a digit for each
/// run of empty squares between pieces.
pub open spec fn emitted_text(row: Seq<ChessSquare>, i: int) -> Seq<char>
    decreases i,
{
    if i <= 0 {
        Seq::empty()
    } else if row[i - 1] == ChessSquare::Empty {
        emitted_text(row, i - 1)
    } else {
        emitted_text(row, i - 1) + run_text(pending_empties(row, i - 1)) + seq![
            row[i - 1].letter(),
        ]
    }
}

/// The text of a row of the board: a letter for each piece, a digit for
/// each run of empty squares.
pub open spec fn rank_text(row: Seq<ChessSquare>) -> Seq<char> {
    emitted_text(row, 8) + run_text(pending_empties(row, 8))
}

/// The text of the `n` rows of the board that are farthest from White, the
/// farthest first, with a slash between two rows.
pub open spec fn rows_text(g: Grid, n: nat) -> Seq<char>
    decreases n,
{
    if n == 0 {
        Seq::empty()
    } else if n == 1 {
        rank_text(g[7])
    } else {
        rows_text(g, (n - 1) as nat) + seq!['/'] + rank_text(g[8 - n])
    }
}

/// The piece-placement field of the notation.
pub open spec fn placement_text(g: Grid) -> Seq<char> {
    rows_text(g, 8)
}

/// The side-to-move field of the notation.
pub open spec fn side_text(player: ChessColor) -> Seq<char> {
    match player {
        ChessColor::White => seq!['w'],
        ChessColor::Black => seq!['b'],
    }
}

/// The letter of a castling right, if it is held.
pub open spec fn right_text(rights: CastlingRights, c: Castling, letter: char) -> Seq<char> {
    if rights.holds(c) {
        seq![letter]
    } else {
        Seq::empty()
    }
}

/// The castling field of the notation: the letters of the rights held, in
/// the order K, Q, k, q, or a dash if none is held.
pub open spec fn castling_text(rights: CastlingRights) -> Seq<char> {
    if !rights.white_short && !rights.white_long && !rights.black_short && !rights.black_long {
        seq!['-']
    } else {
        right_text(rights, Castling::WhiteShort, 'K') + right_text(
            rights,
            Castling::WhiteLong,
            'Q',
        ) + right_text(rights, Castling::BlackShort, 'k') + right_text(
            rights,
            Castling::BlackLong,
            'q',
        )
    }
}

/// The notation of a position: the piece placement, the side to move, the
/// castling rights, a dash for the en-passant target, a zero for the
/// half-move clock and the number of moves made, with one space between
/// two fields.
pub open spec fn fen_text(p: Position) -> Seq<char> {
    join_fields(
        placement_text(p.grid),
        side_text(p.player),
        castling_text(p.rights),
        seq!['-'],
        seq!['0'],
        decimal(p.ply),
    )
}

/// Six fields with one space between two.
pub open spec fn join_fields(
    a: Seq<char>,
    b: Seq<char>,
    c: Seq<char>,
    d: Seq<char>,
    e: Seq<char>,
    f: Seq<char>,
) -> Seq<char> {
    a + seq![' '] + (b + seq![' '] + (c + seq![' '] + (d + seq![' '] + (e + seq![' '] + f))))
}

/// Returns the text of a digit.
pub fn digit_text(d: u32) -> (text: &'static str)
    requires
        d < 10,
    ensures
        text@ == seq![digit_char(d as int)],
{
    proof {
        reveal_strlit("0");
        reveal_strlit("1");
        reveal_strlit("2");
        reveal_strlit("3");
        reveal_strlit("4");
        reveal_strlit("5");
        reveal_strlit("6");
        reveal_strlit("7");
        reveal_strlit("8");
        reveal_strlit("9");
    }
    let text = if d == 0 {
        "0"
    } else if d == 1 {
        "1"
    } else if d == 2 {
        "2"
    } else if d == 3 {
        "3"
    } else if d == 4 {
        "4"
    } else if d == 5 {
        "5"
    } else if d == 6 {
        "6"
    } else if d == 7 {
        "7"
    } else if d == 8 {
        "8"
    } else {
        "9"
    };
    assert(text@ =~= seq![digit_char(d as int)]);
    text
}

/// Returns the decimal numeral of a number.
pub fn number_text(n: u32) -> (text: String)
    ensures
        text@ == decimal(n as nat),
    decreases n,
{
    if n < 10 {
        String::from_str(digit_text(n))
    } else {
        let mut text = number_text(n / 10);
        text.append(digit_text(n % 10));
        assert(text@ =~= decimal(n as nat));
        text
    }
}

/// Adds the text of one row of the board to a string.
fn append_rank_text(fen: &mut String, board: &Squares, row: usize)
    requires
        row < 8,
    ensures
        final(fen)@ == old(fen)@ + rank_text(grid_of(*board)[row as int]),
{
    let ghost squares = grid_of(*board)[row as int];
    let ghost start = fen@;
    let mut empty_squares: u32 = 0;
    let mut x: usize = 0;
    assert(fen@ =~= start + emitted_text(squares, 0));
    while x < 8
        invariant
            row < 8,
            x <= 8,
            squares == grid_of(*board)[row as int],
            empty_squares == pending_empties(squares, x as int),
            empty_squares <= x,
            fen@ == start + emitted_text(squares, x as int),
        decreases 8 - x,
    {
        let square = board[row][x];
        if square == ChessSquare::Empty {
            empty_squares = empty_squares + 1;
        } else {
            let ghost before = fen@;
            if empty_squares > 0 {
                fen.append(digit_text(empty_squares));
            }
            let letter = square.get_char();
            fen.append(letter.as_str());
            assert(fen@ =~= before + run_text(empty_squares as int) + seq![square.letter()]);
            assert(fen@ =~= start + emitted_text(squares, x as int + 1));
            empty_squares = 0;
        }
        x = x + 1;
    }
    let ghost before = fen@;
    if empty_squares > 0 {
        fen.append(digit_text(empty_squares));
    }
    assert(fen@ =~= before + run_text(empty_squares as int));
    assert(fen@ =~= start + rank_text(squares));
}

/// Returns the piece-placement field of the notation of a board: the rows
/// from the farthest from White to the nearest, each from the a-file on.
pub fn get_fen_board_part(board: &Squares) -> (fen: String)
    ensures
        fen@ == placement_text(grid_of(*board)),
{
    let ghost g = grid_of(*board);
    let mut fen = String::new();
    let mut y: usize = 0;
    assert(fen@ =~= rows_text(g, 0));
    while y < 8
        invariant
            y <= 8,
            g == grid_of(*board),
            fen@ == rows_text(g, y as nat),
        decreases 8 - y,
    {
        let ghost before = fen@;
        if y > 0 {
            proof {
                reveal_strlit("/");
            }
            fen.append("/");
            assert(fen@ =~= before + seq!['/']);
        }
        append_rank_text(&mut fen, board, 7 - y);
        assert(fen@ =~= rows_text(g, (y + 1) as nat));
        y = y + 1;
    }
    fen
}

/// Returns the castling field of the notation.
pub fn get_fen_castling_part(rights: &CastlingRights) -> (fen: String)
    ensures
        fen@ == castling_text(*rights),
{
    proof {
        reveal_strlit("-");
        reveal_strlit("K");
        reveal_strlit("Q");
        reveal_strlit("k");
        reveal_strlit("q");
    }
    let mut fen = String::new();
    if rights.is_empty() {
        fen.append("-");
        assert(!rights.holds(Castling::WhiteShort));
        assert(!rights.holds(Castling::WhiteLong));
        assert(!rights.holds(Castling::BlackShort));
        assert(!rights.holds(Castling::BlackLong));
        assert(fen@ =~= castling_text(*rights));
    } else {
        if rights.contains(Castling::WhiteShort) {
            fen.append("K");
        }
        if rights.contains(Castling::WhiteLong) {
            fen.append("Q");
        }
        if rights.contains(Castling::BlackShort) {
            fen.append("k");
        }
        if rights.contains(Castling::BlackLong) {
            fen.append("q");
        }
        assert(rights.white_short || rights.white_long || rights.black_short
            || rights.black_long) by {
            if !rights.white_short && !rights.white_long && !rights.black_short
                && !rights.black_long {
                assert forall|c: Castling| !rights.holds(c) by {}
            }
        }
        assert(fen@ =~= castling_text(*rights));
    }
    fen
}

impl ChessBoard {
    /// Returns the notation of the position. The en-passant target and the
    /// half-move clock are not kept by a position: a dash and a zero are
    /// written in their place.
    pub fn get_forsyth_edwards_notation(&self) -> (fen: String)
        ensures
            fen@ == fen_text(self@),
    {
        proof {
            reveal_strlit(" ");
            reveal_strlit("w");
            reveal_strlit("b");
            reveal_strlit(" - 0 ");
        }
        let mut fen = String::new();
        let placement = get_fen_board_part(&self.squares);
        fen.append(placement.as_str());
        fen.append(" ");
        if self.current_player == ChessColor::White {
            fen.append("w");
        } else {
            fen.append("b");
        }
        fen.append(" ");
        let castling = get_fen_castling_part(&self.available_castling);
        fen.append(castling.as_str());
        fen.append(" - 0 ");
        let number = number_text(self.move_number);
        fen.append(number.as_str());
        assert(" - 0 "@ =~= seq![' ', '-', ' ', '0', ' ']);
        assert(fen@ =~= placement@ + seq![' '] + side_text(self.current_player) + seq![' ']
            + castling@ + seq![' ', '-', ' ', '0', ' '] + number@);
        assert(fen@ =~= fen_text(self@));
        fen
    }
}

/// The letter of a column of the board, from a to h.
pub open spec fn file_char(x: int) -> char {
    if x == 0 {
        'a'
    } else if x == 1 {
        'b'
    } else if x == 2 {
        'c'
    } else if x == 3 {
        'd'
    } else if x == 4 {
        'e'
    } else if x == 5 {
        'f'
    } else if x == 6 {
        'g'
    } else {
        'h'
    }
}

/// The name of a square: the letter of its column and the number of its
/// row, counted from 1.
pub open spec fn square_name(x: int, y: int) -> Seq<char> {
    seq![file_char(x), digit_char(y + 1)]
}

/// The letter by which a move names its piece: none for a pawn, and the
/// upper-case letter of its kind for any other piece of either colour.
pub open spec fn piece_prefix(piece: ChessSquare) -> Seq<char> {
    match piece.kind() {
        Some(PieceKind::Rook) => seq!['R'],
        Some(PieceKind::Knight) => seq!['N'],
        Some(PieceKind::Bishop) => seq!['B'],
        Some(PieceKind::Queen) => seq!['Q'],
        Some(PieceKind::King) => seq!['K'],
        _ => Seq::empty(),
    }
}

/// How a move is written for display: `O-O` for a short castling and
/// `O-O-O` for a long one; else the letter of the piece, if it is no pawn,
/// and the name of the square it moves to. Captures, checks and the square
/// it comes from are not written.
pub open spec fn move_text(m: ChessMove) -> Seq<char> {
    match m.castling {
        Some(Castling::WhiteShort) | Some(Castling::BlackShort) => seq!['O', '-', 'O'],
        Some(Castling::WhiteLong) | Some(Castling::BlackLong) => seq!['O', '-', 'O', '-', 'O'],
        None => piece_prefix(m.piece) + square_name(m.to_x as int, m.to_y as int),
    }
}

/// Returns the letter of a column of the board.
pub fn file_text(x: usize) -> (text: &'static str)
    requires
        x < 8,
    ensures
        text@ == seq![file_char(x as int)],
{
    proof {
        reveal_strlit("a");
        reveal_strlit("b");
        reveal_strlit("c");
        reveal_strlit("d");
        reveal_strlit("e");
        reveal_strlit("f");
        reveal_strlit("g");
        reveal_strlit("h");
    }
    let text = if x == 0 {
        "a"
    } else if x == 1 {
        "b"
    } else if x == 2 {
        "c"
    } else if x == 3 {
        "d"
    } else if x == 4 {
        "e"
    } else if x == 5 {
        "f"
    } else if x == 6 {
        "g"
    } else {
        "h"
    };
    assert(text@ =~= seq![file_char(x as int)]);
    text
}

/// Returns the letter by which a move names its piece.
pub fn piece_prefix_text(piece: &ChessSquare) -> (text: &'static str)
    ensures
        text@ == piece_prefix(*piece),
{
    proof {
        reveal_strlit("");
        reveal_strlit("R");
        reveal_strlit("N");
        reveal_strlit("B");
        reveal_strlit("Q");
        reveal_strlit("K");
    }
    let text = match piece {
        ChessSquare::WhiteRook | ChessSquare::BlackRook => "R",
        ChessSquare::WhiteKnight | ChessSquare::BlackKnight => "N",
        ChessSquare::WhiteBishop | ChessSquare::BlackBishop => "B",
        ChessSquare::WhiteQueen | ChessSquare::BlackQueen => "Q",
        ChessSquare::WhiteKing | ChessSquare::BlackKing => "K",
        _ => "",
    };
    assert(text@ =~= piece_prefix(*piece));
    text
}

impl ChessMove {
    /// Returns the move as it is written for display. A move that is no
    /// castling must end on the board, where squares have names.
    pub fn to_string(&self) -> (text: String)
        requires
            self.castling is None ==> self.to_on_board(),
        ensures
            text@ == move_text(*self),
    {
        proof {
            reveal_strlit("O-O");
            reveal_strlit("O-O-O");
        }
        match self.castling {
            Some(Castling::WhiteShort) | Some(Castling::BlackShort) => {
                let text = String::from_str("O-O");
                assert(text@ =~= move_text(*self));
                text
            },
            Some(Castling::WhiteLong) | Some(Castling::BlackLong) => {
                let text = String::from_str("O-O-O");
                assert(text@ =~= move_text(*self));
                text
            },
            None => {
                let mut text = String::from_str(piece_prefix_text(&self.piece));
                text.append(file_text(self.to_x));
                text.append(digit_text(self.to_y as u32 + 1));
                assert(text@ =~= move_text(*self));
                text
            },
        }
    }
}

} // verus!
