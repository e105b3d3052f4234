use vstd::prelude::*;
use crate::attack::{first_piece, hit_on_line, hit_on_step, is_attacked};
use crate::castling::Castling;
use crate::chess_move::{castle_applies, castle_path_clear, castled, ChessMove};
use crate::chess_square::{ChessSquare, PieceKind};
use crate::directions::{
    bishop_directions,
    knight_moves,
    pawn_attack_directions,
    queen_directions,
    rook_directions,
};
use crate::grid::{on_board, wf_grid, Grid};
use crate::legality::{is_legal, king_placed, king_safe_on};

verus! {

/// Whether two boards hold the same off the given row.
pub open spec fn same_off_row(f: Grid, h: Grid, row: int) -> bool {
    forall|x: int, y: int| on_board(x, y) && y != row ==> f[y][x] == h[y][x]
}

/// A walk that leaves a row at once meets the same piece on two boards
/// that hold the same off that row.
proof fn lemma_first_piece_off_row(
    f: Grid,
    h: Grid,
    row: int,
    x: int,
    y: int,
    dx: int,
    dy: int,
    steps: nat,
)
    requires
        same_off_row(f, h, row),
        (dy == 1 && y >= row) || (dy == -1 && y <= row),
    ensures
        first_piece(f, x, y, dx, dy, steps) == first_piece(h, x, y, dx, dy, steps),
    decreases steps,
{
    if steps > 0 && on_board(x + dx, y + dy) {
        lemma_first_piece_off_row(f, h, row, x + dx, y + dy, dx, dy, (steps - 1) as nat);
    }
}

/// After a legal castling the king is not attacked on the square it has
/// arrived on.
pub proof fn lemma_castled_king_is_safe(g: Grid, m: ChessMove, c: Castling)
    requires
        wf_grid(g),
        m.castling == Some(c),
        is_legal(g, c.color(), m),
    ensures
        !is_attacked(castled(g, c), c.king_to(), c.row(), c.color()),
{
    let f = castled(g, c);
    let h = king_placed(g, c, c.king_to());
    let kx = c.king_to();
    let row = c.row();
    let color = c.color();
    let enemy = color.opposite();
    assert(castle_applies(g, m, c));
    assert(castle_path_clear(g, c));
    assert(king_safe_on(g, c, kx));
    assert(!is_attacked(h, kx, row, color));
    assert(same_off_row(f, h, row));
    assert forall|x: int| 0 <= x < 8 && x != c.rook_from() && x != c.rook_to() implies f[row][x]
        == h[row][x] by {}
    assert(f[row][c.rook_from()] == ChessSquare::Empty);
    assert(f[row][c.rook_to()] == c.rook());
    let rook = ChessSquare::piece(enemy, PieceKind::Rook);
    let bishop = ChessSquare::piece(enemy, PieceKind::Bishop);
    let queen = ChessSquare::piece(enemy, PieceKind::Queen);
    let knight = ChessSquare::piece(enemy, PieceKind::Knight);
    let pawn = ChessSquare::piece(enemy, PieceKind::Pawn);
    let king = ChessSquare::piece(enemy, PieceKind::King);
    assert forall|i: int| 0 <= i < 4 implies !hit_on_line(
        f,
        kx,
        row,
        #[trigger] rook_directions()[i],
        rook,
        queen,
    ) by {
        let d = rook_directions()[i];
        assert(!hit_on_line(h, kx, row, d, rook, queen));
        if d.1 != 0 {
            lemma_first_piece_off_row(f, h, row, kx, row, d.0 as int, d.1 as int, 7);
        } else {
            reveal_with_fuel(first_piece, 4);
        }
    }
    assert forall|i: int| 0 <= i < 4 implies !hit_on_line(
        f,
        kx,
        row,
        #[trigger] bishop_directions()[i],
        bishop,
        queen,
    ) by {
        let d = bishop_directions()[i];
        assert(!hit_on_line(h, kx, row, d, bishop, queen));
        lemma_first_piece_off_row(f, h, row, kx, row, d.0 as int, d.1 as int, 7);
    }
    assert forall|i: int| 0 <= i < 8 implies !hit_on_step(
        f,
        kx,
        row,
        #[trigger] knight_moves()[i],
        knight,
    ) by {
        assert(!hit_on_step(h, kx, row, knight_moves()[i], knight));
    }
    assert forall|i: int| 0 <= i < 2 implies !hit_on_step(
        f,
        kx,
        row,
        #[trigger] pawn_attack_directions(color)[i],
        pawn,
    ) by {
        assert(!hit_on_step(h, kx, row, pawn_attack_directions(color)[i], pawn));
    }
    assert forall|i: int| 0 <= i < 8 implies !hit_on_step(
        f,
        kx,
        row,
        #[trigger] queen_directions()[i],
        king,
    ) by {
        assert(!hit_on_step(h, kx, row, queen_directions()[i], king));
    }
}

} // verus!
