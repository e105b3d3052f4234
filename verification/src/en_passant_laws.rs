use vstd::prelude::*;
use crate::castling::{Castling, CastlingRights};
use crate::chess_board::Position;
use crate::chess_color::ChessColor;
use crate::chess_move::{forward, moved, pawn_of, ChessMove};
use crate::chess_square::{ChessSquare, PieceKind};
use crate::directions::{bishop_directions, knight_moves, queen_directions, rook_directions};
use crate::grid::{on_board, wf_grid, Grid};
use crate::move_gen::{
    castle_candidates,
    double_push,
    en_passant_moves,
    en_passant_offered,
    is_double_push,
    pawn_arrivals,
    pawn_captures,
    pawn_moves,
    potential_moves,
    step_moves,
};
use crate::move_laws::lemma_valid_move_fits;
use crate::move_rules::{
    lemma_contains_add,
    lemma_potential_moves_rule,
    pseudo_legal,
    slide_rule,
    step_rule,
};

verus! {

/// The moves of a pawn one square ahead.
pub open spec fn pawn_ahead(g: Grid, x: int, y: int, piece: ChessSquare) -> Seq<ChessMove> {
    let ny = y + forward(piece.color());
    if g[ny][x] == ChessSquare::Empty {
        pawn_arrivals(x, y, x, ny, piece, None)
    } else {
        Seq::empty()
    }
}

/// A move is among the moves of a pawn exactly if the pawn has a row ahead
/// of it and the move is one of its five sorts: a step ahead, the double
/// push, a capture to either side, or the capture en passant.
pub proof fn lemma_pawn_parts(
    g: Grid,
    last: Option<ChessMove>,
    x: int,
    y: int,
    piece: ChessSquare,
    m: ChessMove,
)
    ensures
        pawn_moves(g, last, x, y, piece).contains(m) <==> on_board(
            x,
            y + forward(piece.color()),
        ) && {
            ||| pawn_ahead(g, x, y, piece).contains(m)
            ||| double_push(g, x, y, piece).contains(m)
            ||| pawn_captures(g, x, y, x - 1, y + forward(piece.color()), piece).contains(m)
            ||| pawn_captures(g, x, y, x + 1, y + forward(piece.color()), piece).contains(m)
            ||| en_passant_moves(g, last, x, y, piece).contains(m)
        },
{
    let ny = y + forward(piece.color());
    if on_board(x, ny) {
        let ahead = pawn_ahead(g, x, y, piece);
        let push = double_push(g, x, y, piece);
        let left = pawn_captures(g, x, y, x - 1, ny, piece);
        let right = pawn_captures(g, x, y, x + 1, ny, piece);
        let passing = en_passant_moves(g, last, x, y, piece);
        lemma_contains_add(ahead + push + left + right, passing, m);
        lemma_contains_add(ahead + push + left, right, m);
        lemma_contains_add(ahead + push, left, m);
        lemma_contains_add(ahead, push, m);
    }
}

/// The moves that bring a pawn onto a square are no captures en passant,
/// and end on that square.
proof fn lemma_arrivals_are_plain(
    x: int,
    y: int,
    to_x: int,
    to_y: int,
    piece: ChessSquare,
    capture: Option<ChessSquare>,
    m: ChessMove,
)
    requires
        on_board(to_x, to_y),
        pawn_arrivals(x, y, to_x, to_y, piece, capture).contains(m),
    ensures
        !m.en_passant,
        m.to_x == to_x,
        m.to_y == to_y,
        m.capture == capture,
{
    let found = pawn_arrivals(x, y, to_x, to_y, piece, capture);
    let i = choose|i: int| 0 <= i < found.len() && found[i] == m;
    assert(found[i] == m);
}

/// Among the moves of the pawn on a square, the captures en passant are
/// the one that is offered, if one is.
pub proof fn lemma_pawn_en_passant_rule(
    g: Grid,
    last: Option<ChessMove>,
    x: int,
    y: int,
    piece: ChessSquare,
    m: ChessMove,
)
    requires
        on_board(x, y),
        m.en_passant,
    ensures
        pawn_moves(g, last, x, y, piece).contains(m) <==> en_passant_offered(g, last, x, y, piece)
            && en_passant_moves(g, last, x, y, piece) == seq![m],
{
    let ny = y + forward(piece.color());
    lemma_pawn_parts(g, last, x, y, piece, m);
    let passing = en_passant_moves(g, last, x, y, piece);
    if on_board(x, ny) {
        if pawn_ahead(g, x, y, piece).contains(m) {
            lemma_arrivals_are_plain(x, y, x, ny, piece, None, m);
        }
        if double_push(g, x, y, piece).contains(m) {
            assert(double_push(g, x, y, piece)[0] == m);
        }
        if pawn_captures(g, x, y, x - 1, ny, piece).contains(m) {
            lemma_arrivals_are_plain(x, y, x - 1, ny, piece, Some(g[ny][x - 1]), m);
        }
        if pawn_captures(g, x, y, x + 1, ny, piece).contains(m) {
            lemma_arrivals_are_plain(x, y, x + 1, ny, piece, Some(g[ny][x + 1]), m);
        }
    }
    if passing.contains(m) {
        assert(passing[0] == m);
        assert(passing =~= seq![m]);
    }
    if en_passant_offered(g, last, x, y, piece) && passing == seq![m] {
        assert(passing[0] == m);
    }
}

/// The generator lists a capture en passant if and only if it is offered:
/// the capturing piece is the player's pawn on the origin of the move, the
/// move made just before was the two-square advance of an enemy pawn that
/// now stands beside it, and the move is the capture of that pawn onto the
/// square it passed over. No other piece, and no pawn otherwise, is given
/// such a move.
pub proof fn lemma_en_passant_offer_rule(
    g: Grid,
    player: ChessColor,
    last: Option<ChessMove>,
    rights: CastlingRights,
    m: ChessMove,
)
    requires
        wf_grid(g),
        m.en_passant,
    ensures
        potential_moves(g, player, last, rights).contains(m) <==> {
            &&& on_board(m.x as int, m.y as int)
            &&& g[m.y as int][m.x as int] == m.piece
            &&& m.piece == pawn_of(player)
            &&& en_passant_offered(g, last, m.x as int, m.y as int, m.piece)
            &&& en_passant_moves(g, last, m.x as int, m.y as int, m.piece) == seq![m]
        },
{
    let x = m.x as int;
    let y = m.y as int;
    lemma_potential_moves_rule(g, player, last, rights, m);
    if on_board(x, y) {
        lemma_pawn_en_passant_rule(g, last, x, y, m.piece, m);
    }
    if pseudo_legal(g, player, last, rights, m) {
        match m.piece.kind() {
            Some(PieceKind::Pawn) => {},
            Some(PieceKind::Rook) => {
                assert(!slide_rule(g, player, rook_directions(), m));
            },
            Some(PieceKind::Bishop) => {
                assert(!slide_rule(g, player, bishop_directions(), m));
            },
            Some(PieceKind::Queen) => {
                assert(!slide_rule(g, player, queen_directions(), m));
            },
            Some(PieceKind::Knight) => {
                lemma_steps_are_plain(g, player, knight_moves(), m);
            },
            Some(PieceKind::King) => {
                lemma_steps_are_plain(g, player, queen_directions(), m);
                assert forall|c: Castling| !(#[trigger] castle_candidates(
                    g,
                    rights,
                    m.piece,
                    x,
                    y,
                    c,
                ).contains(m)) by {
                    let found = castle_candidates(g, rights, m.piece, x, y, c);
                    if found.contains(m) {
                        assert(found[0] == m);
                    }
                }
            },
            None => {},
        }
    }
}

/// No step of a piece is a capture en passant.
proof fn lemma_steps_are_plain(g: Grid, player: ChessColor, steps: Seq<(i32, i32)>, m: ChessMove)
    requires
        m.en_passant,
    ensures
        !step_rule(g, player, steps, m),
{
    assert forall|i: int| 0 <= i < steps.len() implies !(#[trigger] step_moves(
        g,
        player,
        m.piece,
        m.x as int,
        m.y as int,
        steps[i],
    ).contains(m)) by {
        let found = step_moves(g, player, m.piece, m.x as int, m.y as int, steps[i]);
        if found.contains(m) {
            assert(found[0] == m);
        }
    }
}

/// Right after the two-square advance of a pawn, every enemy pawn that
/// stands beside it is offered its capture en passant: in the position
/// that a legal double push leads to, the generator lists, for a pawn of
/// the side to move on the row and next to the column that the pushed pawn
/// came to, the capture of that pawn onto the square it passed over.
pub proof fn lemma_en_passant_after_double_push(p: Position, pushed: ChessMove, x: int, y: int)
    requires
        p.wf(),
        p.valid_moves().contains(pushed),
        is_double_push(pushed),
        on_board(x, y),
        p.after(pushed).grid[y][x] == pawn_of(p.player.opposite()),
        pushed.to_y == y,
        pushed.to_x == x + 1 || pushed.to_x + 1 == x,
    ensures
        en_passant_offered(
            p.after(pushed).grid,
            Some(pushed),
            x,
            y,
            pawn_of(p.player.opposite()),
        ),
        potential_moves(
            p.after(pushed).grid,
            p.player.opposite(),
            Some(pushed),
            p.after(pushed).rights,
        ).contains(
            ChessMove {
                piece: pawn_of(p.player.opposite()),
                x: x as usize,
                y: y as usize,
                to_x: pushed.x,
                to_y: ((pushed.y + pushed.to_y) / 2) as usize,
                capture: Some(pushed.piece),
                promotion: None,
                castling: None,
                en_passant: true,
            },
        ),
{
    let q = p.after(pushed);
    let piece = pawn_of(p.player.opposite());
    lemma_valid_move_fits(p, pushed);
    lemma_potential_moves_rule(p.grid, p.player, p.last, p.rights, pushed);
    let px = pushed.x as int;
    let py = pushed.y as int;
    let fwd = forward(pushed.piece.color());
    // the push is the double push of the pawn, so the square it passes is empty
    lemma_pawn_parts(p.grid, p.last, px, py, pushed.piece, pushed);
    if pawn_ahead(p.grid, px, py, pushed.piece).contains(pushed) {
        lemma_arrivals_are_plain(px, py, px, py + fwd, pushed.piece, None, pushed);
    }
    if pawn_captures(p.grid, px, py, px - 1, py + fwd, pushed.piece).contains(pushed) {
        lemma_arrivals_are_plain(
            px,
            py,
            px - 1,
            py + fwd,
            pushed.piece,
            Some(p.grid[py + fwd][px - 1]),
            pushed,
        );
    }
    if pawn_captures(p.grid, px, py, px + 1, py + fwd, pushed.piece).contains(pushed) {
        lemma_arrivals_are_plain(
            px,
            py,
            px + 1,
            py + fwd,
            pushed.piece,
            Some(p.grid[py + fwd][px + 1]),
            pushed,
        );
    }
    if en_passant_moves(p.grid, p.last, px, py, pushed.piece).contains(pushed) {
        assert(en_passant_moves(p.grid, p.last, px, py, pushed.piece)[0] == pushed);
    }
    assert(double_push(p.grid, px, py, pushed.piece).contains(pushed));
    assert(p.grid[py + fwd][px] == ChessSquare::Empty);
    assert(q.grid == moved(p.grid, pushed));
    assert(q.grid[py + fwd][px] == ChessSquare::Empty);
    assert(q.grid[pushed.to_y as int][pushed.to_x as int] == pushed.piece);
    assert(en_passant_offered(q.grid, Some(pushed), x, y, piece));
    let capture = en_passant_moves(q.grid, Some(pushed), x, y, piece)[0];
    lemma_pawn_en_passant_rule(q.grid, Some(pushed), x, y, piece, capture);
    assert(wf_grid(q.grid));
    lemma_potential_moves_rule(q.grid, p.player.opposite(), Some(pushed), q.rights, capture);
    assert(pseudo_legal(q.grid, p.player.opposite(), Some(pushed), q.rights, capture));
}

} // verus!
