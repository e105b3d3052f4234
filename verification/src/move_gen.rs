use vstd::prelude::*;
use crate::castling::{Castling, CastlingRights};
use crate::chess_color::ChessColor;
use crate::chess_move::{
    capture_of,
    castle_path_clear,
    forward,
    pawn_of,
    promotion_pieces,
    simple_move,
    ChessMove,
};
use crate::chess_square::{ChessSquare, PieceKind};
use crate::directions::{
    bishop_directions,
    get_bishop_directions,
    get_knight_moves,
    get_queen_directions,
    get_rook_directions,
    knight_moves,
    queen_directions,
    rook_directions,
    short_steps,
    unit_steps,
};
use crate::grid::{grid_of, on_board, walked, Grid, Squares};

verus! {

/// A move that is neither a promotion, nor a castling, nor an en-passant
/// capture.
pub open spec fn plain_move(
    piece: ChessSquare,
    x: int,
    y: int,
    to_x: int,
    to_y: int,
    capture: Option<ChessSquare>,
) -> ChessMove {
    ChessMove {
        piece,
        x: x as usize,
        y: y as usize,
        to_x: to_x as usize,
        to_y: to_y as usize,
        capture,
        promotion: None,
        castling: None,
        en_passant: false,
    }
}

/// The moves of a piece that stands on (x, y) along one direction, from the
/// square after (cx, cy) on and over no more than `steps` squares: one to
/// each empty square up to the first piece, and the capture of that piece
/// if it is the enemy's.
pub open spec fn ray_moves(
    g: Grid,
    player: ChessColor,
    piece: ChessSquare,
    x: int,
    y: int,
    cx: int,
    cy: int,
    dx: int,
    dy: int,
    steps: nat,
) -> Seq<ChessMove>
    decreases steps,
{
    let nx = cx + dx;
    let ny = cy + dy;
    if steps == 0 || !on_board(nx, ny) {
        Seq::empty()
    } else if g[ny][nx] == ChessSquare::Empty {
        seq![plain_move(piece, x, y, nx, ny, None)] + ray_moves(
            g,
            player,
            piece,
            x,
            y,
            nx,
            ny,
            dx,
            dy,
            (steps - 1) as nat,
        )
    } else if g[ny][nx].color() == player.opposite() {
        seq![plain_move(piece, x, y, nx, ny, Some(g[ny][nx]))]
    } else {
        Seq::empty()
    }
}

/// The moves of a sliding piece along the first `n` of the directions, one
/// direction after the other.
pub open spec fn slider_moves_upto(
    g: Grid,
    player: ChessColor,
    piece: ChessSquare,
    x: int,
    y: int,
    dirs: Seq<(i32, i32)>,
    n: nat,
) -> Seq<ChessMove>
    decreases n,
{
    if n == 0 {
        Seq::empty()
    } else {
        slider_moves_upto(g, player, piece, x, y, dirs, (n - 1) as nat) + ray_moves(
            g,
            player,
            piece,
            x,
            y,
            x,
            y,
            dirs[n - 1].0 as int,
            dirs[n - 1].1 as int,
            7,
        )
    }
}

/// The moves of a sliding piece along all the directions.
pub open spec fn slider_moves(
    g: Grid,
    player: ChessColor,
    piece: ChessSquare,
    x: int,
    y: int,
    dirs: Seq<(i32, i32)>,
) -> Seq<ChessMove> {
    slider_moves_upto(g, player, piece, x, y, dirs, dirs.len())
}

/// The move of a piece by one fixed step, if the step ends on the board
/// and not on a piece of its own side.
pub open spec fn step_moves(
    g: Grid,
    player: ChessColor,
    piece: ChessSquare,
    x: int,
    y: int,
    d: (i32, i32),
) -> Seq<ChessMove> {
    let tx = x + d.0;
    let ty = y + d.1;
    if on_board(tx, ty) && (g[ty][tx] == ChessSquare::Empty || g[ty][tx].color()
        == player.opposite()) {
        seq![plain_move(piece, x, y, tx, ty, capture_of(g[ty][tx]))]
    } else {
        Seq::empty()
    }
}

/// The moves of a piece by the first `n` of the steps, one step after the
/// other.
pub open spec fn jumper_moves_upto(
    g: Grid,
    player: ChessColor,
    piece: ChessSquare,
    x: int,
    y: int,
    steps: Seq<(i32, i32)>,
    n: nat,
) -> Seq<ChessMove>
    decreases n,
{
    if n == 0 {
        Seq::empty()
    } else {
        jumper_moves_upto(g, player, piece, x, y, steps, (n - 1) as nat) + step_moves(
            g,
            player,
            piece,
            x,
            y,
            steps[n - 1],
        )
    }
}

/// The moves of a piece by all the steps.
pub open spec fn jumper_moves(
    g: Grid,
    player: ChessColor,
    piece: ChessSquare,
    x: int,
    y: int,
    steps: Seq<(i32, i32)>,
) -> Seq<ChessMove> {
    jumper_moves_upto(g, player, piece, x, y, steps, steps.len())
}

/// The castling move of a king that stands on (x, y).
pub open spec fn castle_move(piece: ChessSquare, x: int, y: int, c: Castling) -> ChessMove {
    ChessMove {
        piece,
        x: x as usize,
        y: y as usize,
        to_x: c.king_to() as usize,
        to_y: c.row() as usize,
        capture: None,
        promotion: None,
        castling: Some(c),
        en_passant: false,
    }
}

/// The castling move, offered when the right to it is held and the squares
/// between king and rook are empty. Whether the king would be attacked on
/// its way is not looked at here.
pub open spec fn castle_candidates(
    g: Grid,
    rights: CastlingRights,
    piece: ChessSquare,
    x: int,
    y: int,
    c: Castling,
) -> Seq<ChessMove> {
    if rights.holds(c) && castle_path_clear(g, c) {
        seq![castle_move(piece, x, y, c)]
    } else {
        Seq::empty()
    }
}

/// The moves of a king: its eight steps, then the long and the short
/// castling of its colour.
pub open spec fn king_moves(
    g: Grid,
    player: ChessColor,
    piece: ChessSquare,
    x: int,
    y: int,
    rights: CastlingRights,
) -> Seq<ChessMove> {
    let steps = jumper_moves(g, player, piece, x, y, queen_directions());
    if piece == ChessSquare::WhiteKing {
        steps + castle_candidates(g, rights, piece, x, y, Castling::WhiteLong)
            + castle_candidates(g, rights, piece, x, y, Castling::WhiteShort)
    } else if piece == ChessSquare::BlackKing {
        steps + castle_candidates(g, rights, piece, x, y, Castling::BlackLong)
            + castle_candidates(g, rights, piece, x, y, Castling::BlackShort)
    } else {
        steps
    }
}

/// The move of a pawn that is promoted on arrival.
pub open spec fn promotion_move(
    piece: ChessSquare,
    x: int,
    y: int,
    to_x: int,
    to_y: int,
    capture: Option<ChessSquare>,
    promoted: ChessSquare,
) -> ChessMove {
    ChessMove {
        piece,
        x: x as usize,
        y: y as usize,
        to_x: to_x as usize,
        to_y: to_y as usize,
        capture,
        promotion: Some(promoted),
        castling: None,
        en_passant: false,
    }
}

/// The moves that bring a pawn onto a square: on the first or the last
/// row four promotions and nothing else, elsewhere the one plain move.
pub open spec fn pawn_arrivals(
    x: int,
    y: int,
    to_x: int,
    to_y: int,
    piece: ChessSquare,
    capture: Option<ChessSquare>,
) -> Seq<ChessMove> {
    if to_y == 0 || to_y == 7 {
        Seq::new(
            4,
            |i: int|
                promotion_move(
                    piece,
                    x,
                    y,
                    to_x,
                    to_y,
                    capture,
                    promotion_pieces(piece.color())[i],
                ),
        )
    } else {
        seq![plain_move(piece, x, y, to_x, to_y, capture)]
    }
}

/// The advance of a pawn by two squares from its starting row, offered
/// when the square it passes and the square it reaches are both empty.
pub open spec fn double_push(g: Grid, x: int, y: int, piece: ChessSquare) -> Seq<ChessMove> {
    let dir = forward(piece.color());
    let start = if piece.color() == ChessColor::White {
        1int
    } else {
        6int
    };
    if y == start && g[y + dir][x] == ChessSquare::Empty && g[y + 2 * dir][x]
        == ChessSquare::Empty {
        seq![plain_move(piece, x, y, x, y + 2 * dir, None)]
    } else {
        Seq::empty()
    }
}

/// The captures of a pawn onto the square (tx, ny), offered when an enemy
/// piece stands there.
pub open spec fn pawn_captures(g: Grid, x: int, y: int, tx: int, ny: int, piece: ChessSquare) -> Seq<
    ChessMove,
> {
    if on_board(tx, ny) && g[ny][tx].has_color(piece.color().opposite()) {
        pawn_arrivals(x, y, tx, ny, piece, Some(g[ny][tx]))
    } else {
        Seq::empty()
    }
}

/// Whether a move is the advance of a pawn by two squares from its
/// starting row.
pub open spec fn is_double_push(m: ChessMove) -> bool {
    &&& m.castling is None
    &&& m.promotion is None
    &&& m.capture is None
    &&& !m.en_passant
    &&& m.x == m.to_x
    &&& m.x < 8
    &&& {
        ||| m.piece == ChessSquare::WhitePawn && m.y == 1 && m.to_y == 3
        ||| m.piece == ChessSquare::BlackPawn && m.y == 6 && m.to_y == 4
    }
}

/// Whether the pawn on (x, y) can capture en passant: the move before was
/// the two-square advance of an enemy pawn that now stands beside it, and
/// the square that pawn passed over is empty.
pub open spec fn en_passant_offered(
    g: Grid,
    last: Option<ChessMove>,
    x: int,
    y: int,
    piece: ChessSquare,
) -> bool {
    last matches Some(l) && {
        &&& is_double_push(l)
        &&& l.piece == pawn_of(piece.color().opposite())
        &&& l.to_y == y
        &&& (l.to_x == x + 1 || l.to_x + 1 == x)
        &&& g[y][l.to_x as int] == l.piece
        &&& on_board(l.to_x as int, y + forward(piece.color()))
        &&& g[y + forward(piece.color())][l.to_x as int] == ChessSquare::Empty
    }
}

/// The en-passant capture of the pawn on (x, y), if it is offered.
pub open spec fn en_passant_moves(
    g: Grid,
    last: Option<ChessMove>,
    x: int,
    y: int,
    piece: ChessSquare,
) -> Seq<ChessMove> {
    if en_passant_offered(g, last, x, y, piece) {
        seq![
            ChessMove {
                piece,
                x: x as usize,
                y: y as usize,
                to_x: last->0.to_x,
                to_y: (y + forward(piece.color())) as usize,
                capture: Some(last->0.piece),
                promotion: None,
                castling: None,
                en_passant: true,
            },
        ]
    } else {
        Seq::empty()
    }
}

/// The moves of a pawn: one square ahead, two squares ahead, the capture
/// to the left, the capture to the right, and the capture en passant, in
/// this order. A pawn on its farthest row has none.
pub open spec fn pawn_moves(
    g: Grid,
    last: Option<ChessMove>,
    x: int,
    y: int,
    piece: ChessSquare,
) -> Seq<ChessMove> {
    let ny = y + forward(piece.color());
    if !on_board(x, ny) {
        Seq::empty()
    } else {
        let ahead = if g[ny][x] == ChessSquare::Empty {
            pawn_arrivals(x, y, x, ny, piece, None)
        } else {
            Seq::empty()
        };
        ahead + double_push(g, x, y, piece) + pawn_captures(g, x, y, x - 1, ny, piece)
            + pawn_captures(g, x, y, x + 1, ny, piece) + en_passant_moves(g, last, x, y, piece)
    }
}

/// The moves of whatever stands on (x, y), if it is the player's.
pub open spec fn piece_moves(
    g: Grid,
    player: ChessColor,
    last: Option<ChessMove>,
    rights: CastlingRights,
    x: int,
    y: int,
) -> Seq<ChessMove> {
    let piece = g[y][x];
    if !piece.has_color(player) {
        Seq::empty()
    } else {
        match piece.kind() {
            Some(PieceKind::Pawn) => pawn_moves(g, last, x, y, piece),
            Some(PieceKind::Rook) => slider_moves(g, player, piece, x, y, rook_directions()),
            Some(PieceKind::Bishop) => slider_moves(g, player, piece, x, y, bishop_directions()),
            Some(PieceKind::Queen) => slider_moves(g, player, piece, x, y, queen_directions()),
            Some(PieceKind::Knight) => jumper_moves(g, player, piece, x, y, knight_moves()),
            Some(PieceKind::King) => king_moves(g, player, piece, x, y, rights),
            None => Seq::empty(),
        }
    }
}

/// The moves of the player's pieces on the first `n` squares, the squares
/// numbered row by row from White's side and within a row from the a-file.
pub open spec fn potential_moves_upto(
    g: Grid,
    player: ChessColor,
    last: Option<ChessMove>,
    rights: CastlingRights,
    n: nat,
) -> Seq<ChessMove>
    decreases n,
{
    if n == 0 {
        Seq::empty()
    } else {
        potential_moves_upto(g, player, last, rights, (n - 1) as nat) + piece_moves(
            g,
            player,
            last,
            rights,
            (n - 1) % 8,
            (n - 1) / 8,
        )
    }
}

/// All the moves that the player's pieces can make by the way they move,
/// whether or not the player's king is safe afterwards.
pub open spec fn potential_moves(
    g: Grid,
    player: ChessColor,
    last: Option<ChessMove>,
    rights: CastlingRights,
) -> Seq<ChessMove> {
    potential_moves_upto(g, player, last, rights, 64)
}

/// Returns the moves that bring a pawn onto a square: four promotions on
/// the first or the last row, one plain move elsewhere.
pub fn create_pawn_moves(
    x: usize,
    y: usize,
    to_x: usize,
    to_y: usize,
    piece: &ChessSquare,
    capture: Option<ChessSquare>,
) -> (moves: Vec<ChessMove>)
    requires
        piece.is_piece(),
    ensures
        moves@ == pawn_arrivals(x as int, y as int, to_x as int, to_y as int, *piece, capture),
        (to_y == 0 || to_y == 7) ==> moves.len() == 4 && forall|i: int|
            0 <= i < 4 ==> (#[trigger] moves[i]).promotion == Some(
                promotion_pieces(piece.color())[i],
            ),
        !(to_y == 0 || to_y == 7) ==> moves.len() == 1 && moves[0].promotion is None,
{
    let mut moves: Vec<ChessMove> = Vec::new();
    if to_y == 0 || to_y == 7 {
        let color = piece.get_color();
        let promoted = match color {
            ChessColor::White => [
                ChessSquare::WhiteBishop,
                ChessSquare::WhiteKnight,
                ChessSquare::WhiteQueen,
                ChessSquare::WhiteRook,
            ],
            ChessColor::Black => [
                ChessSquare::BlackBishop,
                ChessSquare::BlackKnight,
                ChessSquare::BlackQueen,
                ChessSquare::BlackRook,
            ],
        };
        let mut i: usize = 0;
        while i < 4
            invariant
                i <= 4,
                moves.len() == i,
                forall|j: int| 0 <= j < 4 ==> promoted[j] == promotion_pieces(piece.color())[j],
                forall|j: int|
                    0 <= j < i ==> moves[j] == promotion_move(
                        *piece,
                        x as int,
                        y as int,
                        to_x as int,
                        to_y as int,
                        capture,
                        promotion_pieces(piece.color())[j],
                    ),
            decreases 4 - i,
        {
            moves.push(
                ChessMove {
                    piece: *piece,
                    x,
                    y,
                    to_x,
                    to_y,
                    capture,
                    promotion: Some(promoted[i]),
                    castling: None,
                    en_passant: false,
                },
            );
            i = i + 1;
        }
        assert(moves@ =~= pawn_arrivals(
            x as int,
            y as int,
            to_x as int,
            to_y as int,
            *piece,
            capture,
        ));
    } else {
        moves.push(
            ChessMove {
                piece: *piece,
                x,
                y,
                to_x,
                to_y,
                capture,
                promotion: None,
                castling: None,
                en_passant: false,
            },
        );
        assert(moves@ =~= pawn_arrivals(
            x as int,
            y as int,
            to_x as int,
            to_y as int,
            *piece,
            capture,
        ));
    }
    moves
}

/// Adds the advance of a pawn by two squares to the list if it is offered.
fn push_double_push(
    moves: &mut Vec<ChessMove>,
    x: usize,
    y: usize,
    piece: &ChessSquare,
    board: &Squares,
)
    requires
        x < 8,
        y < 8,
        piece.is_piece(),
    ensures
        final(moves)@ == old(moves)@ + double_push(grid_of(*board), x as int, y as int, *piece),
{
    let color = piece.get_color();
    if color == ChessColor::White && y == 1 && board[2][x] == ChessSquare::Empty && board[3][x]
        == ChessSquare::Empty {
        moves.push(simple_move(piece, x, y, x, 3));
    } else if color == ChessColor::Black && y == 6 && board[5][x] == ChessSquare::Empty
        && board[4][x] == ChessSquare::Empty {
        moves.push(simple_move(piece, x, y, x, 4));
    }
    assert(moves@ =~= old(moves)@ + double_push(grid_of(*board), x as int, y as int, *piece));
}

/// Adds the captures of a pawn onto the square (to_x, new_y) to the list,
/// if an enemy piece stands there.
fn push_pawn_captures(
    moves: &mut Vec<ChessMove>,
    x: usize,
    y: usize,
    to_x: usize,
    new_y: usize,
    piece: &ChessSquare,
    board: &Squares,
)
    requires
        to_x < 8,
        new_y < 8,
        piece.is_piece(),
    ensures
        final(moves)@ == old(moves)@ + pawn_captures(
            grid_of(*board),
            x as int,
            y as int,
            to_x as int,
            new_y as int,
            *piece,
        ),
{
    let enemy = piece.get_color().get_opposite();
    let target = board[new_y][to_x];
    if target != ChessSquare::Empty && target.get_color() == enemy {
        let mut found = create_pawn_moves(x, y, to_x, new_y, piece, Some(target));
        moves.append(&mut found);
    }
    assert(moves@ =~= old(moves)@ + pawn_captures(
        grid_of(*board),
        x as int,
        y as int,
        to_x as int,
        new_y as int,
        *piece,
    ));
}

/// Tells whether a move is the advance of a pawn by two squares from its
/// starting row.
pub fn is_pawn_double_push(m: &ChessMove) -> (pushed: bool)
    ensures
        pushed == is_double_push(*m),
{
    m.castling.is_none() && m.promotion.is_none() && m.capture.is_none() && !m.en_passant && m.x
        == m.to_x && m.x < 8 && ((m.piece == ChessSquare::WhitePawn && m.y == 1 && m.to_y == 3)
        || (m.piece == ChessSquare::BlackPawn && m.y == 6 && m.to_y == 4))
}

/// Adds the en-passant capture of the pawn on (x, y) to the list if it is
/// offered.
fn push_en_passant(
    moves: &mut Vec<ChessMove>,
    last_move: &Option<ChessMove>,
    x: usize,
    y: usize,
    new_y: usize,
    piece: &ChessSquare,
    board: &Squares,
)
    requires
        x < 8,
        y < 8,
        new_y < 8,
        piece.is_piece(),
        new_y == y + forward(piece.color()),
    ensures
        final(moves)@ == old(moves)@ + en_passant_moves(
            grid_of(*board),
            *last_move,
            x as int,
            y as int,
            *piece,
        ),
{
    match last_move {
        Some(last) => {
            let enemy_pawn = match piece.get_color() {
                ChessColor::White => ChessSquare::BlackPawn,
                ChessColor::Black => ChessSquare::WhitePawn,
            };
            if is_pawn_double_push(last) && last.piece == enemy_pawn && last.to_y == y && (
            last.to_x == x + 1 || last.to_x + 1 == x) && board[y][last.to_x] == last.piece
                && board[new_y][last.to_x] == ChessSquare::Empty {
                moves.push(
                    ChessMove {
                        piece: *piece,
                        x,
                        y,
                        to_x: last.to_x,
                        to_y: new_y,
                        capture: Some(last.piece),
                        promotion: None,
                        castling: None,
                        en_passant: true,
                    },
                );
            }
        },
        None => {},
    }
    assert(moves@ =~= old(moves)@ + en_passant_moves(
        grid_of(*board),
        *last_move,
        x as int,
        y as int,
        *piece,
    ));
}

/// Returns the moves of the pawn on (x, y).
pub fn potential_pawn_moves(
    last_move: &Option<ChessMove>,
    x: usize,
    y: usize,
    piece: &ChessSquare,
    board: &Squares,
) -> (moves: Vec<ChessMove>)
    requires
        x < 8,
        y < 8,
        piece.is_piece(),
    ensures
        moves@ == pawn_moves(grid_of(*board), *last_move, x as int, y as int, *piece),
{
    let ghost g = grid_of(*board);
    let mut moves: Vec<ChessMove> = Vec::new();
    let color = piece.get_color();
    if (color == ChessColor::White && y == 7) || (color == ChessColor::Black && y == 0) {
        return moves;
    }
    let new_y: usize = match color {
        ChessColor::White => y + 1,
        ChessColor::Black => y - 1,
    };
    if board[new_y][x] == ChessSquare::Empty {
        let mut ahead = create_pawn_moves(x, y, x, new_y, piece, None);
        moves.append(&mut ahead);
    }
    push_double_push(&mut moves, x, y, piece, board);
    if x > 0 {
        push_pawn_captures(&mut moves, x, y, x - 1, new_y, piece, board);
    }
    if x < 7 {
        push_pawn_captures(&mut moves, x, y, x + 1, new_y, piece, board);
    }
    push_en_passant(&mut moves, last_move, x, y, new_y, piece, board);
    moves
}

/// Returns the moves of the piece on (x, y) along one direction.
pub fn get_potential_moves_along_ray(
    player: &ChessColor,
    piece: &ChessSquare,
    x: usize,
    y: usize,
    dx: i32,
    dy: i32,
    board: &Squares,
) -> (moves: Vec<ChessMove>)
    requires
        x < 8,
        y < 8,
        -1 <= dx <= 1,
        -1 <= dy <= 1,
        dx != 0 || dy != 0,
    ensures
        moves@ == ray_moves(
            grid_of(*board),
            *player,
            *piece,
            x as int,
            y as int,
            x as int,
            y as int,
            dx as int,
            dy as int,
            7,
        ),
{
    let ghost g = grid_of(*board);
    let ghost whole = ray_moves(
        g,
        *player,
        *piece,
        x as int,
        y as int,
        x as int,
        y as int,
        dx as int,
        dy as int,
        7,
    );
    let enemy = player.get_opposite();
    let mut moves: Vec<ChessMove> = Vec::new();
    let mut to_x: i32 = x as i32 + dx;
    let mut to_y: i32 = y as i32 + dy;
    let mut k: u32 = 0;
    assert(moves@ + whole =~= whole);
    while to_x >= 0 && to_x <= 7 && to_y >= 0 && to_y <= 7
        invariant
            g == grid_of(*board),
            enemy == player.opposite(),
            x < 8,
            y < 8,
            -1 <= dx <= 1,
            -1 <= dy <= 1,
            dx != 0 || dy != 0,
            k <= 7,
            to_x == walked(x as int, dx as int, k + 1),
            to_y == walked(y as int, dy as int, k + 1),
            whole == ray_moves(
                g,
                *player,
                *piece,
                x as int,
                y as int,
                x as int,
                y as int,
                dx as int,
                dy as int,
                7,
            ),
            whole == moves@ + ray_moves(
                g,
                *player,
                *piece,
                x as int,
                y as int,
                to_x - dx,
                to_y - dy,
                dx as int,
                dy as int,
                (7 - k) as nat,
            ),
        decreases 8 - k,
    {
        let target = board[to_y as usize][to_x as usize];
        let ghost rest = ray_moves(
            g,
            *player,
            *piece,
            x as int,
            y as int,
            to_x as int,
            to_y as int,
            dx as int,
            dy as int,
            (7 - k - 1) as nat,
        );
        let ghost before = moves@;
        if target == ChessSquare::Empty {
            let m = simple_move(piece, x, y, to_x as usize, to_y as usize);
            moves.push(m);
            assert(before + (seq![m] + rest) =~= moves@ + rest);
            to_x = to_x + dx;
            to_y = to_y + dy;
            k = k + 1;
        } else {
            if target.get_color() == enemy {
                let m = ChessMove {
                    piece: *piece,
                    x,
                    y,
                    to_x: to_x as usize,
                    to_y: to_y as usize,
                    capture: Some(target),
                    promotion: None,
                    castling: None,
                    en_passant: false,
                };
                moves.push(m);
                assert(before + seq![m] =~= moves@);
            } else {
                assert(before + Seq::<ChessMove>::empty() =~= moves@);
            }
            return moves;
        }
    }
    assert(moves@ + Seq::<ChessMove>::empty() =~= moves@);
    moves
}

/// Returns the moves of the sliding piece on (x, y) along the given
/// directions.
pub fn get_potential_moves_for_directional_piece(
    player: &ChessColor,
    piece: &ChessSquare,
    x: usize,
    y: usize,
    directions: &Vec<(i32, i32)>,
    board: &Squares,
) -> (moves: Vec<ChessMove>)
    requires
        x < 8,
        y < 8,
        unit_steps(directions@),
    ensures
        moves@ == slider_moves(
            grid_of(*board),
            *player,
            *piece,
            x as int,
            y as int,
            directions@,
        ),
{
    let ghost g = grid_of(*board);
    let mut moves: Vec<ChessMove> = Vec::new();
    let mut i: usize = 0;
    while i < directions.len()
        invariant
            g == grid_of(*board),
            x < 8,
            y < 8,
            unit_steps(directions@),
            i <= directions.len(),
            moves@ == slider_moves_upto(
                g,
                *player,
                *piece,
                x as int,
                y as int,
                directions@,
                i as nat,
            ),
        decreases directions.len() - i,
    {
        let d = directions[i];
        let mut along = get_potential_moves_along_ray(player, piece, x, y, d.0, d.1, board);
        moves.append(&mut along);
        i = i + 1;
    }
    moves
}

/// Returns the moves of the piece on (x, y) by the given steps.
pub fn get_potential_moves_for_steps(
    player: &ChessColor,
    piece: &ChessSquare,
    x: usize,
    y: usize,
    steps: &Vec<(i32, i32)>,
    board: &Squares,
) -> (moves: Vec<ChessMove>)
    requires
        x < 8,
        y < 8,
        short_steps(steps@),
    ensures
        moves@ == jumper_moves(grid_of(*board), *player, *piece, x as int, y as int, steps@),
{
    let ghost g = grid_of(*board);
    let enemy = player.get_opposite();
    let mut moves: Vec<ChessMove> = Vec::new();
    let mut i: usize = 0;
    while i < steps.len()
        invariant
            g == grid_of(*board),
            enemy == player.opposite(),
            x < 8,
            y < 8,
            short_steps(steps@),
            i <= steps.len(),
            moves@ == jumper_moves_upto(g, *player, *piece, x as int, y as int, steps@, i as nat),
        decreases steps.len() - i,
    {
        let d = steps[i];
        let ghost before = moves@;
        let to_x: i32 = x as i32 + d.0;
        let to_y: i32 = y as i32 + d.1;
        if to_x >= 0 && to_x <= 7 && to_y >= 0 && to_y <= 7 {
            let target = board[to_y as usize][to_x as usize];
            if target == ChessSquare::Empty || target.get_color() == enemy {
                moves.push(
                    ChessMove {
                        piece: *piece,
                        x,
                        y,
                        to_x: to_x as usize,
                        to_y: to_y as usize,
                        capture: if target == ChessSquare::Empty {
                            None
                        } else {
                            Some(target)
                        },
                        promotion: None,
                        castling: None,
                        en_passant: false,
                    },
                );
            }
        }
        assert(moves@ =~= before + step_moves(
            g,
            *player,
            *piece,
            x as int,
            y as int,
            steps@[i as int],
        ));
        i = i + 1;
    }
    moves
}

/// Returns the moves of the knight on (x, y).
pub fn get_potential_moves_for_knight(
    player: &ChessColor,
    piece: &ChessSquare,
    x: usize,
    y: usize,
    board: &Squares,
) -> (moves: Vec<ChessMove>)
    requires
        x < 8,
        y < 8,
    ensures
        moves@ == jumper_moves(
            grid_of(*board),
            *player,
            *piece,
            x as int,
            y as int,
            knight_moves(),
        ),
{
    let jumps = get_knight_moves();
    get_potential_moves_for_steps(player, piece, x, y, &jumps, board)
}

/// Tells whether the squares between the king's and the rook's home
/// squares are empty.
pub fn castle_path_is_clear(board: &Squares, castling: Castling) -> (clear: bool)
    ensures
        clear == castle_path_clear(grid_of(*board), castling),
{
    let row = castling.home_row();
    match castling {
        Castling::WhiteShort | Castling::BlackShort => board[row][5] == ChessSquare::Empty
            && board[row][6] == ChessSquare::Empty,
        Castling::WhiteLong | Castling::BlackLong => board[row][1] == ChessSquare::Empty
            && board[row][2] == ChessSquare::Empty && board[row][3] == ChessSquare::Empty,
    }
}

/// Adds the castling move to the list if it is offered.
fn push_castle_candidate(
    moves: &mut Vec<ChessMove>,
    piece: &ChessSquare,
    x: usize,
    y: usize,
    board: &Squares,
    available_castling: &CastlingRights,
    castling: Castling,
)
    requires
        x < 8,
        y < 8,
    ensures
        final(moves)@ == old(moves)@ + castle_candidates(
            grid_of(*board),
            *available_castling,
            *piece,
            x as int,
            y as int,
            castling,
        ),
{
    if available_castling.contains(castling) && castle_path_is_clear(board, castling) {
        moves.push(
            ChessMove {
                piece: *piece,
                x,
                y,
                to_x: castling.king_target(),
                to_y: castling.home_row(),
                capture: None,
                promotion: None,
                castling: Some(castling),
                en_passant: false,
            },
        );
    }
    assert(moves@ =~= old(moves)@ + castle_candidates(
        grid_of(*board),
        *available_castling,
        *piece,
        x as int,
        y as int,
        castling,
    ));
}

/// Returns the moves of the king on (x, y): its steps and the castling
/// moves that are offered.
pub fn get_potential_moves_for_king(
    player: &ChessColor,
    piece: &ChessSquare,
    x: usize,
    y: usize,
    board: &Squares,
    available_castling: &CastlingRights,
) -> (moves: Vec<ChessMove>)
    requires
        x < 8,
        y < 8,
    ensures
        moves@ == king_moves(
            grid_of(*board),
            *player,
            *piece,
            x as int,
            y as int,
            *available_castling,
        ),
{
    let steps = get_queen_directions();
    assert(short_steps(steps@));
    let mut moves = get_potential_moves_for_steps(player, piece, x, y, &steps, board);
    if *piece == ChessSquare::WhiteKing {
        push_castle_candidate(
            &mut moves,
            piece,
            x,
            y,
            board,
            available_castling,
            Castling::WhiteLong,
        );
        push_castle_candidate(
            &mut moves,
            piece,
            x,
            y,
            board,
            available_castling,
            Castling::WhiteShort,
        );
    } else if *piece == ChessSquare::BlackKing {
        push_castle_candidate(
            &mut moves,
            piece,
            x,
            y,
            board,
            available_castling,
            Castling::BlackLong,
        );
        push_castle_candidate(
            &mut moves,
            piece,
            x,
            y,
            board,
            available_castling,
            Castling::BlackShort,
        );
    }
    moves
}

/// Returns the moves of whatever stands on (x, y), if it is the player's.
pub fn get_potential_moves_for_square(
    last_move: &Option<ChessMove>,
    player: &ChessColor,
    board: &Squares,
    available_castling: &CastlingRights,
    x: usize,
    y: usize,
) -> (moves: Vec<ChessMove>)
    requires
        x < 8,
        y < 8,
    ensures
        moves@ == piece_moves(
            grid_of(*board),
            *player,
            *last_move,
            *available_castling,
            x as int,
            y as int,
        ),
{
    let piece = board[y][x];
    if piece == ChessSquare::Empty || piece.get_color() != *player {
        return Vec::new();
    }
    match piece {
        ChessSquare::WhitePawn | ChessSquare::BlackPawn => potential_pawn_moves(
            last_move,
            x,
            y,
            &piece,
            board,
        ),
        ChessSquare::WhiteRook | ChessSquare::BlackRook => {
            get_potential_moves_for_directional_piece(
                player,
                &piece,
                x,
                y,
                &get_rook_directions(),
                board,
            )
        },
        ChessSquare::WhiteBishop | ChessSquare::BlackBishop => {
            get_potential_moves_for_directional_piece(
                player,
                &piece,
                x,
                y,
                &get_bishop_directions(),
                board,
            )
        },
        ChessSquare::WhiteQueen | ChessSquare::BlackQueen => {
            get_potential_moves_for_directional_piece(
                player,
                &piece,
                x,
                y,
                &get_queen_directions(),
                board,
            )
        },
        ChessSquare::WhiteKnight | ChessSquare::BlackKnight => get_potential_moves_for_knight(
            player,
            &piece,
            x,
            y,
            board,
        ),
        _ => get_potential_moves_for_king(player, &piece, x, y, board, available_castling),
    }
}

/// Returns all the moves that the player's pieces can make by the way they
/// move, whether or not the player's king is safe afterwards.
pub fn get_potential_moves(
    last_move: &Option<ChessMove>,
    player: &ChessColor,
    board: &Squares,
    available_castling: &CastlingRights,
) -> (moves: Vec<ChessMove>)
    ensures
        moves@ == potential_moves(grid_of(*board), *player, *last_move, *available_castling),
{
    let ghost g = grid_of(*board);
    let mut moves: Vec<ChessMove> = Vec::new();
    let mut y: usize = 0;
    while y < 8
        invariant
            g == grid_of(*board),
            y <= 8,
            moves@ == potential_moves_upto(
                g,
                *player,
                *last_move,
                *available_castling,
                (8 * y) as nat,
            ),
        decreases 8 - y,
    {
        let mut x: usize = 0;
        while x < 8
            invariant
                g == grid_of(*board),
                y < 8,
                x <= 8,
                moves@ == potential_moves_upto(
                    g,
                    *player,
                    *last_move,
                    *available_castling,
                    (8 * y + x) as nat,
                ),
            decreases 8 - x,
        {
            let mut found = get_potential_moves_for_square(
                last_move,
                player,
                board,
                available_castling,
                x,
                y,
            );
            moves.append(&mut found);
            x = x + 1;
        }
        y = y + 1;
    }
    moves
}

} // verus!
