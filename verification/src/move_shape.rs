use vstd::prelude::*;
use crate::castling::{Castling, CastlingRights};
use crate::chess_color::ChessColor;
use crate::chess_move::{
    capture_of,
    castle_path_clear,
    forward,
    move_fits,
    pawn_of,
    promotion_pieces,
    ChessMove,
};
use crate::chess_square::{ChessSquare, PieceKind};
use crate::directions::{bishop_directions, knight_moves, queen_directions, rook_directions};
use crate::grid::{on_board, wf_grid, Grid};
use crate::move_gen::{
    castle_candidates,
    castle_move,
    double_push,
    en_passant_moves,
    en_passant_offered,
    jumper_moves,
    jumper_moves_upto,
    king_moves,
    pawn_arrivals,
    pawn_captures,
    pawn_moves,
    piece_moves,
    plain_move,
    potential_moves,
    potential_moves_upto,
    promotion_move,
    ray_moves,
    slider_moves_upto,
    step_moves,
};

verus! {

/// Whether a move agrees with the board and with the move that was made
/// before it: it fits the board, and if it captures en passant, the move
/// before was the two-square advance of the pawn it captures.
pub open spec fn move_fits_after(
    g: Grid,
    player: ChessColor,
    last: Option<ChessMove>,
    m: ChessMove,
) -> bool {
    &&& move_fits(g, player, m)
    &&& m.en_passant ==> {
        &&& en_passant_offered(g, last, m.x as int, m.y as int, m.piece)
        &&& m.to_x == last->0.to_x
    }
}

/// The move with another piece for the pawn to turn into.
pub open spec fn promoted_to(m: ChessMove, promoted: ChessSquare) -> ChessMove {
    ChessMove {
        piece: m.piece,
        x: m.x,
        y: m.y,
        to_x: m.to_x,
        to_y: m.to_y,
        capture: m.capture,
        promotion: Some(promoted),
        castling: m.castling,
        en_passant: m.en_passant,
    }
}

/// Whether the promotions of the list come in fours: with a move that
/// promotes, the list holds the same move for each piece that a pawn of
/// the player can turn into.
pub open spec fn promotions_complete(player: ChessColor, moves: Seq<ChessMove>) -> bool {
    forall|i: int, promoted: ChessSquare|
        0 <= i < moves.len() && moves[i].promotion is Some && promotion_pieces(player).contains(
            promoted,
        ) ==> moves.contains(#[trigger] promoted_to(moves[i], promoted))
}

/// Whether every move of the list agrees with the board and with the move
/// made before, and the promotions of the list come in fours.
pub open spec fn all_fit(
    g: Grid,
    player: ChessColor,
    last: Option<ChessMove>,
    moves: Seq<ChessMove>,
) -> bool {
    &&& forall|i: int|
        0 <= i < moves.len() ==> move_fits_after(g, player, last, #[trigger] moves[i])
    &&& promotions_complete(player, moves)
}

/// Whether the player's piece stands on the square.
pub open spec fn stands_on(g: Grid, player: ChessColor, piece: ChessSquare, x: int, y: int) -> bool {
    &&& wf_grid(g)
    &&& on_board(x, y)
    &&& g[y][x] == piece
    &&& piece.has_color(player)
}

/// Two lists of fitting moves, put together, are a list of fitting moves.
proof fn lemma_all_fit_add(
    g: Grid,
    player: ChessColor,
    last: Option<ChessMove>,
    a: Seq<ChessMove>,
    b: Seq<ChessMove>,
)
    requires
        all_fit(g, player, last, a),
        all_fit(g, player, last, b),
    ensures
        all_fit(g, player, last, a + b),
        (a + b).len() == a.len() + b.len(),
{
    let whole = a + b;
    assert forall|i: int, promoted: ChessSquare|
        0 <= i < whole.len() && whole[i].promotion is Some && promotion_pieces(player).contains(
            promoted,
        ) implies whole.contains(#[trigger] promoted_to(whole[i], promoted)) by {
        if i < a.len() {
            assert(whole[i] == a[i]);
            let wanted = promoted_to(a[i], promoted);
            assert(a.contains(wanted));
            let j = choose|j: int| 0 <= j < a.len() && #[trigger] a[j] == wanted;
            assert(whole[j] == a[j]);
        } else {
            assert(whole[i] == b[i - a.len()]);
            let wanted = promoted_to(b[i - a.len()], promoted);
            assert(b.contains(wanted));
            let j = choose|j: int| 0 <= j < b.len() && #[trigger] b[j] == wanted;
            assert(whole[a.len() + j] == b[j]);
        }
    }
}

/// A fitting move that does not promote is a list of fitting moves.
proof fn lemma_single_fits(g: Grid, player: ChessColor, last: Option<ChessMove>, m: ChessMove)
    requires
        move_fits_after(g, player, last, m),
        m.promotion is None,
    ensures
        all_fit(g, player, last, seq![m]),
{
}

/// The moves along a ray fit, and are no more than the squares looked at.
proof fn lemma_ray_moves_fit(
    g: Grid,
    player: ChessColor,
    last: Option<ChessMove>,
    piece: ChessSquare,
    x: int,
    y: int,
    cx: int,
    cy: int,
    dx: int,
    dy: int,
    steps: nat,
)
    requires
        stands_on(g, player, piece, x, y),
        piece.kind() != Some(PieceKind::Pawn),
    ensures
        all_fit(g, player, last, ray_moves(g, player, piece, x, y, cx, cy, dx, dy, steps)),
        ray_moves(g, player, piece, x, y, cx, cy, dx, dy, steps).len() <= steps,
    decreases steps,
{
    let nx = cx + dx;
    let ny = cy + dy;
    if steps == 0 || !on_board(nx, ny) {
    } else if g[ny][nx] == ChessSquare::Empty {
        lemma_ray_moves_fit(g, player, last, piece, x, y, nx, ny, dx, dy, (steps - 1) as nat);
        let m = plain_move(piece, x, y, nx, ny, None);
        assert(move_fits_after(g, player, last, m));
        lemma_single_fits(g, player, last, m);
        lemma_all_fit_add(
            g,
            player,
            last,
            seq![m],
            ray_moves(g, player, piece, x, y, nx, ny, dx, dy, (steps - 1) as nat),
        );
    } else if g[ny][nx].color() == player.opposite() {
        let m = plain_move(piece, x, y, nx, ny, Some(g[ny][nx]));
        assert(move_fits_after(g, player, last, m));
        lemma_single_fits(g, player, last, m);
    }
}

/// The moves of a sliding piece fit, and are no more than seven for each
/// direction.
proof fn lemma_slider_moves_fit(
    g: Grid,
    player: ChessColor,
    last: Option<ChessMove>,
    piece: ChessSquare,
    x: int,
    y: int,
    dirs: Seq<(i32, i32)>,
    n: nat,
)
    requires
        stands_on(g, player, piece, x, y),
        piece.kind() != Some(PieceKind::Pawn),
    ensures
        all_fit(g, player, last, slider_moves_upto(g, player, piece, x, y, dirs, n)),
        slider_moves_upto(g, player, piece, x, y, dirs, n).len() <= 7 * n,
    decreases n,
{
    if n > 0 {
        lemma_slider_moves_fit(g, player, last, piece, x, y, dirs, (n - 1) as nat);
        lemma_ray_moves_fit(
            g,
            player,
            last,
            piece,
            x,
            y,
            x,
            y,
            dirs[n - 1].0 as int,
            dirs[n - 1].1 as int,
            7,
        );
        lemma_all_fit_add(
            g,
            player,
            last,
            slider_moves_upto(g, player, piece, x, y, dirs, (n - 1) as nat),
            ray_moves(
                g,
                player,
                piece,
                x,
                y,
                x,
                y,
                dirs[n - 1].0 as int,
                dirs[n - 1].1 as int,
                7,
            ),
        );
    }
}

/// The moves of a piece by fixed steps fit, and are no more than the
/// steps.
proof fn lemma_jumper_moves_fit(
    g: Grid,
    player: ChessColor,
    last: Option<ChessMove>,
    piece: ChessSquare,
    x: int,
    y: int,
    steps: Seq<(i32, i32)>,
    n: nat,
)
    requires
        stands_on(g, player, piece, x, y),
        piece.kind() != Some(PieceKind::Pawn),
    ensures
        all_fit(g, player, last, jumper_moves_upto(g, player, piece, x, y, steps, n)),
        jumper_moves_upto(g, player, piece, x, y, steps, n).len() <= n,
    decreases n,
{
    if n > 0 {
        lemma_jumper_moves_fit(g, player, last, piece, x, y, steps, (n - 1) as nat);
        let d = steps[n - 1];
        let tx = x + d.0;
        let ty = y + d.1;
        let found = step_moves(g, player, piece, x, y, d);
        if found.len() > 0 {
            let m = plain_move(piece, x, y, tx, ty, capture_of(g[ty][tx]));
            assert(move_fits_after(g, player, last, m));
        }
        lemma_all_fit_add(
            g,
            player,
            last,
            jumper_moves_upto(g, player, piece, x, y, steps, (n - 1) as nat),
            found,
        );
    }
}

/// A castling that is offered fits.
proof fn lemma_castle_candidates_fit(
    g: Grid,
    player: ChessColor,
    last: Option<ChessMove>,
    rights: CastlingRights,
    piece: ChessSquare,
    x: int,
    y: int,
    c: Castling,
)
    requires
        stands_on(g, player, piece, x, y),
        piece == c.king(),
    ensures
        all_fit(g, player, last, castle_candidates(g, rights, piece, x, y, c)),
        castle_candidates(g, rights, piece, x, y, c).len() <= 1,
{
    if rights.holds(c) && castle_path_clear(g, c) {
        let m = castle_move(piece, x, y, c);
        assert(move_fits_after(g, player, last, m));
    }
}

/// The moves of a king fit, and are no more than ten.
proof fn lemma_king_moves_fit(
    g: Grid,
    player: ChessColor,
    last: Option<ChessMove>,
    rights: CastlingRights,
    piece: ChessSquare,
    x: int,
    y: int,
)
    requires
        stands_on(g, player, piece, x, y),
        piece.kind() == Some(PieceKind::King),
    ensures
        all_fit(g, player, last, king_moves(g, player, piece, x, y, rights)),
        king_moves(g, player, piece, x, y, rights).len() <= 10,
{
    let steps = jumper_moves(g, player, piece, x, y, queen_directions());
    lemma_jumper_moves_fit(g, player, last, piece, x, y, queen_directions(), 8);
    if piece == ChessSquare::WhiteKing {
        let long = castle_candidates(g, rights, piece, x, y, Castling::WhiteLong);
        let short = castle_candidates(g, rights, piece, x, y, Castling::WhiteShort);
        lemma_castle_candidates_fit(g, player, last, rights, piece, x, y, Castling::WhiteLong);
        lemma_castle_candidates_fit(g, player, last, rights, piece, x, y, Castling::WhiteShort);
        lemma_all_fit_add(g, player, last, steps, long);
        lemma_all_fit_add(g, player, last, steps + long, short);
    } else {
        let long = castle_candidates(g, rights, piece, x, y, Castling::BlackLong);
        let short = castle_candidates(g, rights, piece, x, y, Castling::BlackShort);
        lemma_castle_candidates_fit(g, player, last, rights, piece, x, y, Castling::BlackLong);
        lemma_castle_candidates_fit(g, player, last, rights, piece, x, y, Castling::BlackShort);
        lemma_all_fit_add(g, player, last, steps, long);
        lemma_all_fit_add(g, player, last, steps + long, short);
    }
}

/// The moves that bring a pawn onto a square it can go to fit, and are no
/// more than four.
proof fn lemma_pawn_arrivals_fit(
    g: Grid,
    player: ChessColor,
    last: Option<ChessMove>,
    piece: ChessSquare,
    x: int,
    y: int,
    to_x: int,
    to_y: int,
    capture: Option<ChessSquare>,
)
    requires
        stands_on(g, player, piece, x, y),
        piece == pawn_of(player),
        on_board(to_x, to_y),
        capture == capture_of(g[to_y][to_x]),
        !g[to_y][to_x].has_color(player),
    ensures
        all_fit(g, player, last, pawn_arrivals(x, y, to_x, to_y, piece, capture)),
        pawn_arrivals(x, y, to_x, to_y, piece, capture).len() <= 4,
{
    let found = pawn_arrivals(x, y, to_x, to_y, piece, capture);
    if to_y == 0 || to_y == 7 {
        assert forall|i: int| 0 <= i < found.len() implies move_fits_after(
            g,
            player,
            last,
            #[trigger] found[i],
        ) by {
            let p = promotion_pieces(piece.color())[i];
            assert(found[i] == promotion_move(piece, x, y, to_x, to_y, capture, p));
            assert(promotion_pieces(player).contains(p));
        }
        assert forall|i: int, promoted: ChessSquare|
            0 <= i < found.len() && found[i].promotion is Some && promotion_pieces(
                player,
            ).contains(promoted) implies found.contains(
            #[trigger] promoted_to(found[i], promoted),
        ) by {
            let j = choose|j: int|
                0 <= j < 4 && #[trigger] promotion_pieces(player)[j] == promoted;
            assert(found[j] == promoted_to(found[i], promoted));
        }
    } else {
        assert(move_fits_after(g, player, last, plain_move(piece, x, y, to_x, to_y, capture)));
    }
}

/// The captures of a pawn onto a square fit, and are no more than four.
proof fn lemma_pawn_captures_fit(
    g: Grid,
    player: ChessColor,
    last: Option<ChessMove>,
    piece: ChessSquare,
    x: int,
    y: int,
    tx: int,
    ny: int,
)
    requires
        stands_on(g, player, piece, x, y),
        piece == pawn_of(player),
    ensures
        all_fit(g, player, last, pawn_captures(g, x, y, tx, ny, piece)),
        pawn_captures(g, x, y, tx, ny, piece).len() <= 4,
{
    if on_board(tx, ny) && g[ny][tx].has_color(piece.color().opposite()) {
        lemma_pawn_arrivals_fit(g, player, last, piece, x, y, tx, ny, Some(g[ny][tx]));
    }
}

/// The moves of a pawn fit, and are no more than fourteen.
proof fn lemma_pawn_moves_fit(
    g: Grid,
    player: ChessColor,
    last: Option<ChessMove>,
    piece: ChessSquare,
    x: int,
    y: int,
)
    requires
        stands_on(g, player, piece, x, y),
        piece == pawn_of(player),
    ensures
        all_fit(g, player, last, pawn_moves(g, last, x, y, piece)),
        pawn_moves(g, last, x, y, piece).len() <= 14,
{
    let ny = y + forward(piece.color());
    if on_board(x, ny) {
        let ahead = if g[ny][x] == ChessSquare::Empty {
            pawn_arrivals(x, y, x, ny, piece, None)
        } else {
            Seq::empty()
        };
        if g[ny][x] == ChessSquare::Empty {
            lemma_pawn_arrivals_fit(g, player, last, piece, x, y, x, ny, None);
        }
        let push = double_push(g, x, y, piece);
        if push.len() > 0 {
            let m = plain_move(piece, x, y, x, y + 2 * forward(piece.color()), None);
            assert(move_fits_after(g, player, last, m));
        }
        let left = pawn_captures(g, x, y, x - 1, ny, piece);
        let right = pawn_captures(g, x, y, x + 1, ny, piece);
        lemma_pawn_captures_fit(g, player, last, piece, x, y, x - 1, ny);
        lemma_pawn_captures_fit(g, player, last, piece, x, y, x + 1, ny);
        let passing = en_passant_moves(g, last, x, y, piece);
        if passing.len() > 0 {
            assert(move_fits_after(g, player, last, passing[0]));
        }
        lemma_all_fit_add(g, player, last, ahead, push);
        lemma_all_fit_add(g, player, last, ahead + push, left);
        lemma_all_fit_add(g, player, last, ahead + push + left, right);
        lemma_all_fit_add(g, player, last, ahead + push + left + right, passing);
    }
}

/// The moves listed for a square fit, and are no more than 56.
proof fn lemma_piece_moves_fit(
    g: Grid,
    player: ChessColor,
    last: Option<ChessMove>,
    rights: CastlingRights,
    x: int,
    y: int,
)
    requires
        wf_grid(g),
        on_board(x, y),
    ensures
        all_fit(g, player, last, piece_moves(g, player, last, rights, x, y)),
        piece_moves(g, player, last, rights, x, y).len() <= 56,
{
    let piece = g[y][x];
    if piece.has_color(player) {
        match piece.kind() {
            Some(PieceKind::Pawn) => {
                lemma_pawn_moves_fit(g, player, last, piece, x, y);
            },
            Some(PieceKind::Rook) => {
                lemma_slider_moves_fit(g, player, last, piece, x, y, rook_directions(), 4);
            },
            Some(PieceKind::Bishop) => {
                lemma_slider_moves_fit(g, player, last, piece, x, y, bishop_directions(), 4);
            },
            Some(PieceKind::Queen) => {
                lemma_slider_moves_fit(g, player, last, piece, x, y, queen_directions(), 8);
            },
            Some(PieceKind::Knight) => {
                lemma_jumper_moves_fit(g, player, last, piece, x, y, knight_moves(), 8);
            },
            Some(PieceKind::King) => {
                lemma_king_moves_fit(g, player, last, rights, piece, x, y);
            },
            None => {},
        }
    }
}

/// The moves listed for the first `n` squares fit, and are no more than 56
/// for each square.
proof fn lemma_potential_moves_upto_fit(
    g: Grid,
    player: ChessColor,
    last: Option<ChessMove>,
    rights: CastlingRights,
    n: nat,
)
    requires
        wf_grid(g),
        n <= 64,
    ensures
        all_fit(g, player, last, potential_moves_upto(g, player, last, rights, n)),
        potential_moves_upto(g, player, last, rights, n).len() <= 56 * n,
    decreases n,
{
    if n > 0 {
        lemma_potential_moves_upto_fit(g, player, last, rights, (n - 1) as nat);
        lemma_piece_moves_fit(g, player, last, rights, (n - 1) % 8, (n - 1) / 8);
        lemma_all_fit_add(
            g,
            player,
            last,
            potential_moves_upto(g, player, last, rights, (n - 1) as nat),
            piece_moves(g, player, last, rights, (n - 1) % 8, (n - 1) / 8),
        );
    }
}

/// Every move that the generator lists agrees with the board and with the
/// move made before, and the list is never longer than 56 moves for each
/// of the 64 squares.
pub proof fn lemma_potential_moves_fit(
    g: Grid,
    player: ChessColor,
    last: Option<ChessMove>,
    rights: CastlingRights,
)
    requires
        wf_grid(g),
    ensures
        all_fit(g, player, last, potential_moves(g, player, last, rights)),
        potential_moves(g, player, last, rights).len() <= 3584,
{
    lemma_potential_moves_upto_fit(g, player, last, rights, 64);
}

} // verus!
