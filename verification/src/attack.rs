use vstd::prelude::*;
use crate::chess_color::ChessColor;
use crate::chess_square::{ChessSquare, PieceKind};
use crate::directions::{
    bishop_directions,
    get_bishop_directions,
    get_knight_moves,
    get_pawn_attack_directions,
    get_queen_directions,
    get_rook_directions,
    knight_moves,
    pawn_attack_directions,
    queen_directions,
    rook_directions,
    short_steps,
    unit_steps,
};
use crate::grid::{grid_of, on_board, walked, Grid, Squares};

verus! {

/// The first piece met when walking from a square in a direction, looking
/// at no more than `steps` squares. `Empty` if the walk leaves the board,
/// or ends, before it meets one.
pub open spec fn first_piece(g: Grid, x: int, y: int, dx: int, dy: int, steps: nat) -> ChessSquare
    decreases steps,
{
    if steps == 0 || !on_board(x + dx, y + dy) {
        ChessSquare::Empty
    } else if g[y + dy][x + dx] != ChessSquare::Empty {
        g[y + dy][x + dx]
    } else {
        first_piece(g, x + dx, y + dy, dx, dy, (steps - 1) as nat)
    }
}

/// Whether, in one of the directions, the first piece met from the square
/// is one of the two given pieces.
pub open spec fn line_attack(
    g: Grid,
    x: int,
    y: int,
    dirs: Seq<(i32, i32)>,
    a: ChessSquare,
    b: ChessSquare,
) -> bool {
    exists|i: int|
        0 <= i < dirs.len() && hit_on_line(g, x, y, #[trigger] dirs[i], a, b)
}

/// Whether the first piece met from the square in the direction is one of
/// the two given pieces.
pub open spec fn hit_on_line(g: Grid, x: int, y: int, d: (i32, i32), a: ChessSquare, b: ChessSquare) -> bool {
    let p = first_piece(g, x, y, d.0 as int, d.1 as int, 7);
    p.is_piece() && (p == a || p == b)
}

/// Whether the given piece stands one of the given steps away from the
/// square.
pub open spec fn step_attack(g: Grid, x: int, y: int, steps: Seq<(i32, i32)>, attacker: ChessSquare) -> bool {
    exists|i: int| 0 <= i < steps.len() && hit_on_step(g, x, y, #[trigger] steps[i], attacker)
}

/// Whether the given piece stands the given step away from the square.
pub open spec fn hit_on_step(g: Grid, x: int, y: int, d: (i32, i32), attacker: ChessSquare) -> bool {
    on_board(x + d.0, y + d.1) && g[y + d.1][x + d.0] == attacker
}

/// Whether a piece of the given colour standing on the square would be
/// attacked by the other side: by a rook or queen along a row or column, by
/// a bishop or queen along a diagonal, by a knight a jump away, by a pawn
/// diagonally ahead of it, or by a king beside it. A place off the board is
/// never attacked.
pub open spec fn is_attacked(g: Grid, x: int, y: int, color: ChessColor) -> bool {
    let enemy = color.opposite();
    &&& on_board(x, y)
    &&& {
        ||| line_attack(
            g,
            x,
            y,
            rook_directions(),
            ChessSquare::piece(enemy, PieceKind::Rook),
            ChessSquare::piece(enemy, PieceKind::Queen),
        )
        ||| line_attack(
            g,
            x,
            y,
            bishop_directions(),
            ChessSquare::piece(enemy, PieceKind::Bishop),
            ChessSquare::piece(enemy, PieceKind::Queen),
        )
        ||| step_attack(g, x, y, knight_moves(), ChessSquare::piece(enemy, PieceKind::Knight))
        ||| step_attack(
            g,
            x,
            y,
            pawn_attack_directions(color),
            ChessSquare::piece(enemy, PieceKind::Pawn),
        )
        ||| step_attack(g, x, y, queen_directions(), ChessSquare::piece(enemy, PieceKind::King))
    }
}

/// The king of the given colour.
pub open spec fn king_of(color: ChessColor) -> ChessSquare {
    ChessSquare::piece(color, PieceKind::King)
}

/// Whether a king of the given colour stands on an attacked square.
pub open spec fn in_check(g: Grid, color: ChessColor) -> bool {
    exists|x: int, y: int| king_attacked_at(g, x, y, color)
}

/// Whether a king of the given colour stands on the square and is attacked
/// there.
pub open spec fn king_attacked_at(g: Grid, x: int, y: int, color: ChessColor) -> bool {
    on_board(x, y) && g[y][x] == king_of(color) && is_attacked(g, x, y, color)
}

/// The colour of the king that stands attacked on the square, if one does.
pub open spec fn checked_king_at(g: Grid, x: int, y: int) -> Option<ChessColor> {
    if king_attacked_at(g, x, y, ChessColor::White) {
        Some(ChessColor::White)
    } else if king_attacked_at(g, x, y, ChessColor::Black) {
        Some(ChessColor::Black)
    } else {
        None
    }
}

/// The colour of the first attacked king among the squares from number
/// `i` on, the squares numbered row by row from White's side and within a
/// row from the a-file.
pub open spec fn first_checked_king(g: Grid, i: int) -> Option<ChessColor>
    decreases 64 - i,
{
    if i < 0 || i >= 64 {
        None
    } else {
        match checked_king_at(g, i % 8, i / 8) {
            Some(color) => Some(color),
            None => first_checked_king(g, i + 1),
        }
    }
}

/// Returns the piece of the given colour and kind.
pub fn make_piece(color: ChessColor, kind: PieceKind) -> (piece: ChessSquare)
    ensures
        piece == ChessSquare::piece(color, kind),
        piece.has_color(color),
        piece.kind() == Some(kind),
{
    match (color, kind) {
        (ChessColor::White, PieceKind::Pawn) => ChessSquare::WhitePawn,
        (ChessColor::White, PieceKind::Rook) => ChessSquare::WhiteRook,
        (ChessColor::White, PieceKind::Knight) => ChessSquare::WhiteKnight,
        (ChessColor::White, PieceKind::Bishop) => ChessSquare::WhiteBishop,
        (ChessColor::White, PieceKind::Queen) => ChessSquare::WhiteQueen,
        (ChessColor::White, PieceKind::King) => ChessSquare::WhiteKing,
        (ChessColor::Black, PieceKind::Pawn) => ChessSquare::BlackPawn,
        (ChessColor::Black, PieceKind::Rook) => ChessSquare::BlackRook,
        (ChessColor::Black, PieceKind::Knight) => ChessSquare::BlackKnight,
        (ChessColor::Black, PieceKind::Bishop) => ChessSquare::BlackBishop,
        (ChessColor::Black, PieceKind::Queen) => ChessSquare::BlackQueen,
        (ChessColor::Black, PieceKind::King) => ChessSquare::BlackKing,
    }
}

/// Returns the first piece met from a square in a direction, `Empty` if
/// there is none before the edge of the board.
pub fn first_piece_on_ray(board: &Squares, x: usize, y: usize, dx: i32, dy: i32) -> (piece:
    ChessSquare)
    requires
        x < 8,
        y < 8,
        -1 <= dx <= 1,
        -1 <= dy <= 1,
        dx != 0 || dy != 0,
    ensures
        piece == first_piece(grid_of(*board), x as int, y as int, dx as int, dy as int, 7),
{
    let ghost g = grid_of(*board);
    let mut cx: i32 = x as i32 + dx;
    let mut cy: i32 = y as i32 + dy;
    let mut k: u32 = 0;
    while cx >= 0 && cx <= 7 && cy >= 0 && cy <= 7
        invariant
            g == grid_of(*board),
            x < 8,
            y < 8,
            -1 <= dx <= 1,
            -1 <= dy <= 1,
            dx != 0 || dy != 0,
            k <= 7,
            cx == walked(x as int, dx as int, k + 1),
            cy == walked(y as int, dy as int, k + 1),
            first_piece(g, x as int, y as int, dx as int, dy as int, 7) == first_piece(
                g,
                cx - dx,
                cy - dy,
                dx as int,
                dy as int,
                (7 - k) as nat,
            ),
        decreases 8 - k,
    {
        let p = board[cy as usize][cx as usize];
        if p != ChessSquare::Empty {
            return p;
        }
        cx = cx + dx;
        cy = cy + dy;
        k = k + 1;
    }
    ChessSquare::Empty
}

/// Tells whether, in one of the directions, the first piece met from the
/// square is one of the two given pieces.
pub fn line_attacked(
    board: &Squares,
    x: usize,
    y: usize,
    dirs: &Vec<(i32, i32)>,
    a: ChessSquare,
    b: ChessSquare,
) -> (hit: bool)
    requires
        x < 8,
        y < 8,
        unit_steps(dirs@),
    ensures
        hit == line_attack(grid_of(*board), x as int, y as int, dirs@, a, b),
{
    let ghost g = grid_of(*board);
    let mut i: usize = 0;
    while i < dirs.len()
        invariant
            g == grid_of(*board),
            x < 8,
            y < 8,
            unit_steps(dirs@),
            i <= dirs.len(),
            forall|j: int| 0 <= j < i ==> !hit_on_line(g, x as int, y as int, #[trigger] dirs@[j], a, b),
        decreases dirs.len() - i,
    {
        let d = dirs[i];
        let p = first_piece_on_ray(board, x, y, d.0, d.1);
        if p != ChessSquare::Empty && (p == a || p == b) {
            assert(hit_on_line(g, x as int, y as int, dirs@[i as int], a, b));
            return true;
        }
        i = i + 1;
    }
    false
}

/// Tells whether the given piece stands one of the given steps away from
/// the square.
pub fn step_attacked(
    board: &Squares,
    x: usize,
    y: usize,
    steps: &Vec<(i32, i32)>,
    attacker: ChessSquare,
) -> (hit: bool)
    requires
        x < 8,
        y < 8,
        short_steps(steps@),
    ensures
        hit == step_attack(grid_of(*board), x as int, y as int, steps@, attacker),
{
    let ghost g = grid_of(*board);
    let mut i: usize = 0;
    while i < steps.len()
        invariant
            g == grid_of(*board),
            x < 8,
            y < 8,
            short_steps(steps@),
            i <= steps.len(),
            forall|j: int|
                0 <= j < i ==> !hit_on_step(g, x as int, y as int, #[trigger] steps@[j], attacker),
        decreases steps.len() - i,
    {
        let d = steps[i];
        let cx: i32 = x as i32 + d.0;
        let cy: i32 = y as i32 + d.1;
        if cx >= 0 && cx <= 7 && cy >= 0 && cy <= 7 && board[cy as usize][cx as usize]
            == attacker {
            assert(hit_on_step(g, x as int, y as int, steps@[i as int], attacker));
            return true;
        }
        i = i + 1;
    }
    false
}

/// Tells whether a piece of the given colour on the square would be
/// attacked by the other side.
pub fn is_check(x: usize, y: usize, board: &Squares, color: ChessColor) -> (attacked: bool)
    ensures
        attacked == is_attacked(grid_of(*board), x as int, y as int, color),
{
    if x >= 8 || y >= 8 {
        return false;
    }
    let enemy = color.get_opposite();
    let rook = make_piece(enemy, PieceKind::Rook);
    let bishop = make_piece(enemy, PieceKind::Bishop);
    let queen = make_piece(enemy, PieceKind::Queen);
    let knight = make_piece(enemy, PieceKind::Knight);
    let pawn = make_piece(enemy, PieceKind::Pawn);
    let king = make_piece(enemy, PieceKind::King);
    if line_attacked(board, x, y, &get_rook_directions(), rook, queen) {
        return true;
    }
    if line_attacked(board, x, y, &get_bishop_directions(), bishop, queen) {
        return true;
    }
    if step_attacked(board, x, y, &get_knight_moves(), knight) {
        return true;
    }
    if step_attacked(board, x, y, &get_pawn_attack_directions(color), pawn) {
        return true;
    }
    let dirs = get_queen_directions();
    assert(short_steps(dirs@));
    step_attacked(board, x, y, &dirs, king)
}

/// Tells whether a king of the given colour stands on an attacked square.
pub fn king_in_check(board: &Squares, color: ChessColor) -> (check: bool)
    ensures
        check == in_check(grid_of(*board), color),
{
    let ghost g = grid_of(*board);
    let king = make_piece(color, PieceKind::King);
    let mut y: usize = 0;
    while y < 8
        invariant
            g == grid_of(*board),
            king == king_of(color),
            y <= 8,
            forall|a: int, b: int| 0 <= b < y ==> !king_attacked_at(g, a, b, color),
        decreases 8 - y,
    {
        let mut x: usize = 0;
        while x < 8
            invariant
                g == grid_of(*board),
                king == king_of(color),
                y < 8,
                x <= 8,
                forall|a: int, b: int| 0 <= b < y ==> !king_attacked_at(g, a, b, color),
                forall|a: int| 0 <= a < x ==> !king_attacked_at(g, a, y as int, color),
            decreases 8 - x,
        {
            if board[y][x] == king && is_check(x, y, board, color) {
                assert(king_attacked_at(g, x as int, y as int, color));
                return true;
            }
            x = x + 1;
        }
        y = y + 1;
    }
    false
}

/// The first attacked king found from a square on is a king in check, and
/// none is found exactly if no king stands attacked from there on.
pub proof fn lemma_first_checked_king(g: Grid, i: int)
    requires
        0 <= i <= 64,
    ensures
        first_checked_king(g, i) matches Some(color) ==> in_check(g, color),
        first_checked_king(g, i) is None <==> forall|k: int|
            i <= k < 64 ==> #[trigger] checked_king_at(g, k % 8, k / 8) is None,
    decreases 64 - i,
{
    if i < 64 {
        lemma_first_checked_king(g, i + 1);
        match checked_king_at(g, i % 8, i / 8) {
            Some(color) => {
                assert(king_attacked_at(g, i % 8, i / 8, color));
            },
            None => {},
        }
    }
}

/// No attacked king is found on the board exactly if neither side is in
/// check.
pub proof fn lemma_no_checked_king(g: Grid)
    ensures
        first_checked_king(g, 0) is None <==> !in_check(g, ChessColor::White) && !in_check(
            g,
            ChessColor::Black,
        ),
{
    lemma_first_checked_king(g, 0);
    if first_checked_king(g, 0) is None {
        assert forall|x: int, y: int| !king_attacked_at(g, x, y, ChessColor::White)
            && !king_attacked_at(g, x, y, ChessColor::Black) by {
            if on_board(x, y) {
                let k = 8 * y + x;
                assert(checked_king_at(g, k % 8, k / 8) is None);
            }
        }
    } else {
        let color = first_checked_king(g, 0)->0;
        assert(in_check(g, color));
    }
}

/// Returns the colour of the first king found attacked, the squares looked
/// at row by row from White's side; `None` if neither side is in check.
pub fn get_check(board: &Squares) -> (check: Option<ChessColor>)
    ensures
        check == first_checked_king(grid_of(*board), 0),
        check matches Some(color) ==> in_check(grid_of(*board), color),
        check is None <==> !in_check(grid_of(*board), ChessColor::White) && !in_check(
            grid_of(*board),
            ChessColor::Black,
        ),
{
    let ghost g = grid_of(*board);
    proof {
        lemma_first_checked_king(g, 0);
        lemma_no_checked_king(g);
    }
    let mut y: usize = 0;
    while y < 8
        invariant
            g == grid_of(*board),
            y <= 8,
            first_checked_king(g, 0) == first_checked_king(g, 8 * y),
        decreases 8 - y,
    {
        let mut x: usize = 0;
        while x < 8
            invariant
                g == grid_of(*board),
                y < 8,
                x <= 8,
                first_checked_king(g, 0) == first_checked_king(g, 8 * y + x),
            decreases 8 - x,
        {
            let p = board[y][x];
            if p == ChessSquare::WhiteKing && is_check(x, y, board, ChessColor::White) {
                return Some(ChessColor::White);
            }
            if p == ChessSquare::BlackKing && is_check(x, y, board, ChessColor::Black) {
                return Some(ChessColor::Black);
            }
            x = x + 1;
        }
        y = y + 1;
    }
    None
}

} // verus!
