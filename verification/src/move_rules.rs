use vstd::prelude::*;
use crate::castling::{Castling, CastlingRights};
use crate::chess_board::Position;
use crate::chess_color::ChessColor;
use crate::chess_move::{capture_of, ChessMove};
use crate::chess_square::{ChessSquare, PieceKind};
use crate::directions::{
    bishop_directions, knight_moves, queen_directions, rook_directions, unit_steps,
};
use crate::grid::{on_board, walked, wf_grid, Grid};
use crate::legality::{is_legal, legal_filter};
use crate::move_gen::{
    castle_candidates,
    double_push,
    en_passant_moves,
    jumper_moves,
    jumper_moves_upto,
    pawn_arrivals,
    pawn_captures,
    pawn_moves,
    piece_moves,
    plain_move,
    potential_moves,
    potential_moves_upto,
    ray_moves,
    slider_moves,
    slider_moves_upto,
    step_moves,
};
use crate::chess_move::forward;
use crate::move_laws::lemma_valid_move_fits;

verus! {

/// Whether a piece of the player's can slide `k` squares from (x, y) in a
/// direction: the squares it passes are on the board and empty, and the
/// square it reaches is on the board and holds no piece of the player's.
pub open spec fn slide_reaches(
    g: Grid,
    player: ChessColor,
    x: int,
    y: int,
    dx: int,
    dy: int,
    k: int,
) -> bool {
    &&& forall|j: int|
        1 <= j < k ==> on_board(#[trigger] walked(x, dx, j), walked(y, dy, j)) && g[walked(
            y,
            dy,
            j,
        )][walked(x, dx, j)] == ChessSquare::Empty
    &&& on_board(walked(x, dx, k), walked(y, dy, k))
    &&& !g[walked(y, dy, k)][walked(x, dx, k)].has_color(player)
}

/// The move of a piece that slides `k` squares from (x, y) in a direction,
/// capturing what stands where it arrives.
pub open spec fn slide_move(
    g: Grid,
    piece: ChessSquare,
    x: int,
    y: int,
    cx: int,
    cy: int,
    dx: int,
    dy: int,
    k: int,
) -> ChessMove {
    plain_move(
        piece,
        x,
        y,
        walked(cx, dx, k),
        walked(cy, dy, k),
        capture_of(g[walked(cy, dy, k)][walked(cx, dx, k)]),
    )
}

/// Whether a move is a slide of the piece on its origin along one of the
/// directions.
pub open spec fn slide_rule(g: Grid, player: ChessColor, dirs: Seq<(i32, i32)>, m: ChessMove) -> bool {
    exists|i: int, k: int|
        0 <= i < dirs.len() && 1 <= k <= 7 && #[trigger] slide_reaches(
            g,
            player,
            m.x as int,
            m.y as int,
            dirs[i].0 as int,
            dirs[i].1 as int,
            k,
        ) && m == slide_move(
            g,
            m.piece,
            m.x as int,
            m.y as int,
            m.x as int,
            m.y as int,
            dirs[i].0 as int,
            dirs[i].1 as int,
            k,
        )
}

/// Whether a move is one of the given steps of the piece on its origin,
/// onto a square of the board that holds no piece of the player's.
pub open spec fn step_rule(g: Grid, player: ChessColor, steps: Seq<(i32, i32)>, m: ChessMove) -> bool {
    exists|i: int|
        0 <= i < steps.len() && #[trigger] step_moves(
            g,
            player,
            m.piece,
            m.x as int,
            m.y as int,
            steps[i],
        ).contains(m)
}

/// Whether a move follows the way its piece moves: a knight jumps, a king
/// steps or castles where the castling is offered, rook, bishop and queen
/// slide along their lines, and a pawn makes one of a pawn's moves.
pub open spec fn piece_rule(
    g: Grid,
    player: ChessColor,
    last: Option<ChessMove>,
    rights: CastlingRights,
    m: ChessMove,
) -> bool {
    let x = m.x as int;
    let y = m.y as int;
    match m.piece.kind() {
        Some(PieceKind::Pawn) => pawn_moves(g, last, x, y, m.piece).contains(m),
        Some(PieceKind::Rook) => slide_rule(g, player, rook_directions(), m),
        Some(PieceKind::Bishop) => slide_rule(g, player, bishop_directions(), m),
        Some(PieceKind::Queen) => slide_rule(g, player, queen_directions(), m),
        Some(PieceKind::Knight) => step_rule(g, player, knight_moves(), m),
        Some(PieceKind::King) => {
            ||| step_rule(g, player, queen_directions(), m)
            ||| exists|c: Castling|
                c.color() == player && #[trigger] castle_candidates(
                    g,
                    rights,
                    m.piece,
                    x,
                    y,
                    c,
                ).contains(m)
        },
        None => false,
    }
}

/// Whether a move is one that a piece of the player's can make by the way
/// it moves: the piece stands on the origin of the move, and the move
/// follows the way the piece moves.
pub open spec fn pseudo_legal(
    g: Grid,
    player: ChessColor,
    last: Option<ChessMove>,
    rights: CastlingRights,
    m: ChessMove,
) -> bool {
    &&& on_board(m.x as int, m.y as int)
    &&& g[m.y as int][m.x as int] == m.piece
    &&& m.piece.has_color(player)
    &&& piece_rule(g, player, last, rights, m)
}

/// A move is in two lists put together exactly if it is in one of them.
pub proof fn lemma_contains_add(a: Seq<ChessMove>, b: Seq<ChessMove>, m: ChessMove)
    ensures
        (a + b).contains(m) <==> a.contains(m) || b.contains(m),
{
    let whole = a + b;
    if a.contains(m) {
        let i = choose|i: int| 0 <= i < a.len() && a[i] == m;
        assert(whole[i] == m);
    }
    if b.contains(m) {
        let i = choose|i: int| 0 <= i < b.len() && b[i] == m;
        assert(whole[a.len() + i] == m);
    }
    if whole.contains(m) {
        let i = choose|i: int| 0 <= i < whole.len() && whole[i] == m;
        if i < a.len() {
            assert(a[i] == m);
        } else {
            assert(b[i - a.len()] == m);
        }
    }
}

/// The moves along a ray are the slides along it: a move is listed exactly
/// if it is the slide of some number of squares, up to the number looked
/// at, that reaches its square.
proof fn lemma_ray_rule(
    g: Grid,
    player: ChessColor,
    piece: ChessSquare,
    x: int,
    y: int,
    cx: int,
    cy: int,
    dx: int,
    dy: int,
    steps: nat,
    m: ChessMove,
)
    requires
        wf_grid(g),
        -1 <= dx <= 1,
        -1 <= dy <= 1,
    ensures
        ray_moves(g, player, piece, x, y, cx, cy, dx, dy, steps).contains(m) <==> exists|k: int|
            1 <= k <= steps && #[trigger] slide_reaches(g, player, cx, cy, dx, dy, k) && m
                == slide_move(g, piece, x, y, cx, cy, dx, dy, k),
    decreases steps,
{
    let moves = ray_moves(g, player, piece, x, y, cx, cy, dx, dy, steps);
    let nx = cx + dx;
    let ny = cy + dy;
    assert(walked(cx, dx, 1) == nx && walked(cy, dy, 1) == ny);
    if steps == 0 || !on_board(nx, ny) {
        if exists|k: int|
            1 <= k <= steps && #[trigger] slide_reaches(g, player, cx, cy, dx, dy, k) && m
                == slide_move(g, piece, x, y, cx, cy, dx, dy, k) {
            let k = choose|k: int|
                1 <= k <= steps && #[trigger] slide_reaches(g, player, cx, cy, dx, dy, k) && m
                    == slide_move(g, piece, x, y, cx, cy, dx, dy, k);
            if k > 1 {
                assert(on_board(walked(cx, dx, 1), walked(cy, dy, 1)));
            }
        }
    } else if g[ny][nx] == ChessSquare::Empty {
        let first = plain_move(piece, x, y, nx, ny, None);
        let rest = ray_moves(g, player, piece, x, y, nx, ny, dx, dy, (steps - 1) as nat);
        lemma_ray_rule(g, player, piece, x, y, nx, ny, dx, dy, (steps - 1) as nat, m);
        lemma_contains_add(seq![first], rest, m);
        assert(seq![first].contains(m) <==> m == first) by {
            if m == first {
                assert(seq![first][0] == m);
            }
        }
        assert(first == slide_move(g, piece, x, y, cx, cy, dx, dy, 1));
        assert forall|j: int| walked(nx, dx, j) == walked(cx, dx, j + 1) && walked(ny, dy, j)
            == walked(cy, dy, j + 1) by {}
        if moves.contains(m) {
            if m == first {
                assert(slide_reaches(g, player, cx, cy, dx, dy, 1));
            } else {
                let k = choose|k: int|
                    1 <= k <= steps - 1 && #[trigger] slide_reaches(g, player, nx, ny, dx, dy, k)
                        && m == slide_move(g, piece, x, y, nx, ny, dx, dy, k);
                assert forall|j: int| 1 <= j < k + 1 implies on_board(
                    #[trigger] walked(cx, dx, j),
                    walked(cy, dy, j),
                ) && g[walked(cy, dy, j)][walked(cx, dx, j)] == ChessSquare::Empty by {
                    if j > 1 {
                        assert(walked(nx, dx, j - 1) == walked(cx, dx, j));
                        assert(on_board(walked(nx, dx, j - 1), walked(ny, dy, j - 1)));
                    }
                }
                assert(slide_reaches(g, player, cx, cy, dx, dy, k + 1));
                assert(m == slide_move(g, piece, x, y, cx, cy, dx, dy, k + 1));
            }
        }
        if exists|k: int|
            1 <= k <= steps && #[trigger] slide_reaches(g, player, cx, cy, dx, dy, k) && m
                == slide_move(g, piece, x, y, cx, cy, dx, dy, k) {
            let k = choose|k: int|
                1 <= k <= steps && #[trigger] slide_reaches(g, player, cx, cy, dx, dy, k) && m
                    == slide_move(g, piece, x, y, cx, cy, dx, dy, k);
            if k > 1 {
                assert forall|j: int| 1 <= j < k - 1 implies on_board(
                    #[trigger] walked(nx, dx, j),
                    walked(ny, dy, j),
                ) && g[walked(ny, dy, j)][walked(nx, dx, j)] == ChessSquare::Empty by {
                    assert(walked(nx, dx, j) == walked(cx, dx, j + 1));
                    assert(on_board(walked(cx, dx, j + 1), walked(cy, dy, j + 1)));
                }
                assert(slide_reaches(g, player, nx, ny, dx, dy, k - 1));
                assert(m == slide_move(g, piece, x, y, nx, ny, dx, dy, k - 1));
            }
        }
    } else {
        if exists|k: int|
            1 <= k <= steps && #[trigger] slide_reaches(g, player, cx, cy, dx, dy, k) && m
                == slide_move(g, piece, x, y, cx, cy, dx, dy, k) {
            let k = choose|k: int|
                1 <= k <= steps && #[trigger] slide_reaches(g, player, cx, cy, dx, dy, k) && m
                    == slide_move(g, piece, x, y, cx, cy, dx, dy, k);
            if k > 1 {
                assert(on_board(walked(cx, dx, 1), walked(cy, dy, 1)));
                assert(g[walked(cy, dy, 1)][walked(cx, dx, 1)] == ChessSquare::Empty);
            }
        }
        if g[ny][nx].color() == player.opposite() {
            let first = plain_move(piece, x, y, nx, ny, Some(g[ny][nx]));
            assert(first == slide_move(g, piece, x, y, cx, cy, dx, dy, 1));
            assert(moves[0] == first);
            assert(slide_reaches(g, player, cx, cy, dx, dy, 1));
        }
    }
}

/// Whether a move is the slide of some number of squares along one of the
/// first `n` directions.
spec fn slides_along(
    g: Grid,
    player: ChessColor,
    piece: ChessSquare,
    x: int,
    y: int,
    dirs: Seq<(i32, i32)>,
    n: int,
    m: ChessMove,
) -> bool {
    exists|i: int, k: int|
        0 <= i < n && 1 <= k <= 7 && #[trigger] slide_reaches(
            g,
            player,
            x,
            y,
            dirs[i].0 as int,
            dirs[i].1 as int,
            k,
        ) && m == slide_move(g, piece, x, y, x, y, dirs[i].0 as int, dirs[i].1 as int, k)
}

/// The moves of a sliding piece along the first `n` directions are the
/// slides along them.
proof fn lemma_slider_rule(
    g: Grid,
    player: ChessColor,
    piece: ChessSquare,
    x: int,
    y: int,
    dirs: Seq<(i32, i32)>,
    n: nat,
    m: ChessMove,
)
    requires
        wf_grid(g),
        unit_steps(dirs),
        n <= dirs.len(),
    ensures
        slider_moves_upto(g, player, piece, x, y, dirs, n).contains(m) <==> slides_along(
            g,
            player,
            piece,
            x,
            y,
            dirs,
            n as int,
            m,
        ),
    decreases n,
{
    if n > 0 {
        let before = slider_moves_upto(g, player, piece, x, y, dirs, (n - 1) as nat);
        let d = dirs[n - 1];
        let ray = ray_moves(g, player, piece, x, y, x, y, d.0 as int, d.1 as int, 7);
        lemma_slider_rule(g, player, piece, x, y, dirs, (n - 1) as nat, m);
        lemma_ray_rule(g, player, piece, x, y, x, y, d.0 as int, d.1 as int, 7, m);
        lemma_contains_add(before, ray, m);
        if before.contains(m) {
            let (i, k) = choose|i: int, k: int|
                0 <= i < n - 1 && 1 <= k <= 7 && #[trigger] slide_reaches(
                    g,
                    player,
                    x,
                    y,
                    dirs[i].0 as int,
                    dirs[i].1 as int,
                    k,
                ) && m == slide_move(
                    g,
                    piece,
                    x,
                    y,
                    x,
                    y,
                    dirs[i].0 as int,
                    dirs[i].1 as int,
                    k,
                );
            assert(slide_reaches(g, player, x, y, dirs[i].0 as int, dirs[i].1 as int, k));
        }
        if ray.contains(m) {
            let k = choose|k: int|
                1 <= k <= 7 && #[trigger] slide_reaches(g, player, x, y, d.0 as int, d.1 as int, k)
                    && m == slide_move(g, piece, x, y, x, y, d.0 as int, d.1 as int, k);
            assert(slide_reaches(
                g,
                player,
                x,
                y,
                dirs[n - 1].0 as int,
                dirs[n - 1].1 as int,
                k,
            ));
        }
        if slides_along(g, player, piece, x, y, dirs, n as int, m) {
            let (i, k) = choose|i: int, k: int|
                0 <= i < n && 1 <= k <= 7 && #[trigger] slide_reaches(
                    g,
                    player,
                    x,
                    y,
                    dirs[i].0 as int,
                    dirs[i].1 as int,
                    k,
                ) && m == slide_move(
                    g,
                    piece,
                    x,
                    y,
                    x,
                    y,
                    dirs[i].0 as int,
                    dirs[i].1 as int,
                    k,
                );
            if i < n - 1 {
                assert(slides_along(g, player, piece, x, y, dirs, n - 1, m));
            } else {
                assert(slide_reaches(g, player, x, y, d.0 as int, d.1 as int, k));
            }
        }
    }
}

/// Whether a move is one of the first `n` steps of the piece on (x, y).
spec fn steps_among(
    g: Grid,
    player: ChessColor,
    piece: ChessSquare,
    x: int,
    y: int,
    steps: Seq<(i32, i32)>,
    n: int,
    m: ChessMove,
) -> bool {
    exists|i: int|
        0 <= i < n && #[trigger] step_moves(g, player, piece, x, y, steps[i]).contains(m)
}

/// The moves of a piece by the first `n` steps are those of the single
/// steps.
proof fn lemma_jumper_rule(
    g: Grid,
    player: ChessColor,
    piece: ChessSquare,
    x: int,
    y: int,
    steps: Seq<(i32, i32)>,
    n: nat,
    m: ChessMove,
)
    requires
        n <= steps.len(),
    ensures
        jumper_moves_upto(g, player, piece, x, y, steps, n).contains(m) <==> steps_among(
            g,
            player,
            piece,
            x,
            y,
            steps,
            n as int,
            m,
        ),
    decreases n,
{
    if n > 0 {
        let before = jumper_moves_upto(g, player, piece, x, y, steps, (n - 1) as nat);
        let found = step_moves(g, player, piece, x, y, steps[n - 1]);
        lemma_jumper_rule(g, player, piece, x, y, steps, (n - 1) as nat, m);
        lemma_contains_add(before, found, m);
        if before.contains(m) {
            let i = choose|i: int|
                0 <= i < n - 1 && #[trigger] step_moves(g, player, piece, x, y, steps[i]).contains(
                    m,
                );
            assert(step_moves(g, player, piece, x, y, steps[i]).contains(m));
        }
        if steps_among(g, player, piece, x, y, steps, n as int, m) {
            let i = choose|i: int|
                0 <= i < n && #[trigger] step_moves(g, player, piece, x, y, steps[i]).contains(m);
            if i < n - 1 {
                assert(steps_among(g, player, piece, x, y, steps, n - 1, m));
            }
        }
    }
}

/// The moves that bring a pawn onto a square start where the pawn stands
/// and are the pawn's.
proof fn lemma_pawn_arrivals_origin(
    x: int,
    y: int,
    to_x: int,
    to_y: int,
    piece: ChessSquare,
    capture: Option<ChessSquare>,
    m: ChessMove,
)
    requires
        on_board(x, y),
        pawn_arrivals(x, y, to_x, to_y, piece, capture).contains(m),
    ensures
        m.x == x,
        m.y == y,
        m.piece == piece,
{
    let found = pawn_arrivals(x, y, to_x, to_y, piece, capture);
    let i = choose|i: int| 0 <= i < found.len() && found[i] == m;
    assert(found[i] == m);
}

/// The moves of the pawn on a square start on that square and are the
/// pawn's.
proof fn lemma_pawn_origin(
    g: Grid,
    last: Option<ChessMove>,
    x: int,
    y: int,
    piece: ChessSquare,
    m: ChessMove,
)
    requires
        on_board(x, y),
        pawn_moves(g, last, x, y, piece).contains(m),
    ensures
        m.x == x,
        m.y == y,
        m.piece == piece,
{
    let ny = y + forward(piece.color());
    if on_board(x, ny) {
        let ahead = if g[ny][x] == ChessSquare::Empty {
            pawn_arrivals(x, y, x, ny, piece, None)
        } else {
            Seq::empty()
        };
        let push = double_push(g, x, y, piece);
        let left = pawn_captures(g, x, y, x - 1, ny, piece);
        let right = pawn_captures(g, x, y, x + 1, ny, piece);
        let passing = en_passant_moves(g, last, x, y, piece);
        lemma_contains_add(ahead + push + left + right, passing, m);
        lemma_contains_add(ahead + push + left, right, m);
        lemma_contains_add(ahead + push, left, m);
        lemma_contains_add(ahead, push, m);
        if ahead.contains(m) {
            lemma_pawn_arrivals_origin(x, y, x, ny, piece, None, m);
        } else if push.contains(m) {
            assert(push[0] == m);
        } else if left.contains(m) {
            lemma_pawn_arrivals_origin(x, y, x - 1, ny, piece, Some(g[ny][x - 1]), m);
        } else if right.contains(m) {
            lemma_pawn_arrivals_origin(x, y, x + 1, ny, piece, Some(g[ny][x + 1]), m);
        } else {
            assert(passing[0] == m);
        }
    }
}

/// The moves of the sliding piece on a square are the slides of that piece
/// from that square.
proof fn lemma_slide_rule_at(
    g: Grid,
    player: ChessColor,
    piece: ChessSquare,
    x: int,
    y: int,
    dirs: Seq<(i32, i32)>,
    m: ChessMove,
)
    requires
        wf_grid(g),
        on_board(x, y),
        unit_steps(dirs),
    ensures
        slider_moves(g, player, piece, x, y, dirs).contains(m) <==> m.x == x && m.y == y
            && m.piece == piece && slide_rule(g, player, dirs, m),
{
    lemma_slider_rule(g, player, piece, x, y, dirs, dirs.len(), m);
    if slides_along(g, player, piece, x, y, dirs, dirs.len() as int, m) {
        let (i, k) = choose|i: int, k: int|
            0 <= i < dirs.len() && 1 <= k <= 7 && #[trigger] slide_reaches(
                g,
                player,
                x,
                y,
                dirs[i].0 as int,
                dirs[i].1 as int,
                k,
            ) && m == slide_move(g, piece, x, y, x, y, dirs[i].0 as int, dirs[i].1 as int, k);
        assert(slide_reaches(
            g,
            player,
            m.x as int,
            m.y as int,
            dirs[i].0 as int,
            dirs[i].1 as int,
            k,
        ));
    }
    if m.x == x && m.y == y && m.piece == piece && slide_rule(g, player, dirs, m) {
        let (i, k) = choose|i: int, k: int|
            0 <= i < dirs.len() && 1 <= k <= 7 && #[trigger] slide_reaches(
                g,
                player,
                m.x as int,
                m.y as int,
                dirs[i].0 as int,
                dirs[i].1 as int,
                k,
            ) && m == slide_move(
                g,
                m.piece,
                m.x as int,
                m.y as int,
                m.x as int,
                m.y as int,
                dirs[i].0 as int,
                dirs[i].1 as int,
                k,
            );
        assert(slide_reaches(g, player, x, y, dirs[i].0 as int, dirs[i].1 as int, k));
    }
}

/// The moves of the stepping piece on a square are the steps of that piece
/// from that square.
proof fn lemma_step_rule_at(
    g: Grid,
    player: ChessColor,
    piece: ChessSquare,
    x: int,
    y: int,
    steps: Seq<(i32, i32)>,
    m: ChessMove,
)
    requires
        wf_grid(g),
        on_board(x, y),
    ensures
        jumper_moves(g, player, piece, x, y, steps).contains(m) <==> m.x == x && m.y == y
            && m.piece == piece && step_rule(g, player, steps, m),
{
    lemma_jumper_rule(g, player, piece, x, y, steps, steps.len(), m);
    if steps_among(g, player, piece, x, y, steps, steps.len() as int, m) {
        let i = choose|i: int|
            0 <= i < steps.len() && #[trigger] step_moves(g, player, piece, x, y, steps[i]).contains(
                m,
            );
        let found = step_moves(g, player, piece, x, y, steps[i]);
        assert(found[0] == m);
        assert(step_moves(g, player, m.piece, m.x as int, m.y as int, steps[i]).contains(m));
    }
    if m.x == x && m.y == y && m.piece == piece && step_rule(g, player, steps, m) {
        let i = choose|i: int|
            0 <= i < steps.len() && #[trigger] step_moves(
                g,
                player,
                m.piece,
                m.x as int,
                m.y as int,
                steps[i],
            ).contains(m);
        assert(step_moves(g, player, piece, x, y, steps[i]).contains(m));
    }
}

/// The moves listed for a square are the moves from that square that its
/// piece, if it is the player's, can make by the way it moves.
proof fn lemma_piece_rule(
    g: Grid,
    player: ChessColor,
    last: Option<ChessMove>,
    rights: CastlingRights,
    x: int,
    y: int,
    m: ChessMove,
)
    requires
        wf_grid(g),
        on_board(x, y),
    ensures
        piece_moves(g, player, last, rights, x, y).contains(m) <==> m.x == x && m.y == y
            && pseudo_legal(g, player, last, rights, m),
{
    let piece = g[y][x];
    if piece.has_color(player) {
        match piece.kind() {
            Some(PieceKind::Pawn) => {
                if pawn_moves(g, last, x, y, piece).contains(m) {
                    lemma_pawn_origin(g, last, x, y, piece, m);
                }
            },
            Some(PieceKind::Rook) => {
                lemma_slide_rule_at(g, player, piece, x, y, rook_directions(), m);
            },
            Some(PieceKind::Bishop) => {
                lemma_slide_rule_at(g, player, piece, x, y, bishop_directions(), m);
            },
            Some(PieceKind::Queen) => {
                lemma_slide_rule_at(g, player, piece, x, y, queen_directions(), m);
            },
            Some(PieceKind::Knight) => {
                lemma_step_rule_at(g, player, piece, x, y, knight_moves(), m);
            },
            Some(PieceKind::King) => {
                lemma_step_rule_at(g, player, piece, x, y, queen_directions(), m);
                let steps = jumper_moves(g, player, piece, x, y, queen_directions());
                let (long, short) = if piece == ChessSquare::WhiteKing {
                    (Castling::WhiteLong, Castling::WhiteShort)
                } else {
                    (Castling::BlackLong, Castling::BlackShort)
                };
                let by_long = castle_candidates(g, rights, piece, x, y, long);
                let by_short = castle_candidates(g, rights, piece, x, y, short);
                lemma_contains_add(steps + by_long, by_short, m);
                lemma_contains_add(steps, by_long, m);
                if by_long.contains(m) {
                    assert(by_long[0] == m);
                    assert(castle_candidates(g, rights, m.piece, m.x as int, m.y as int, long).contains(
                        m,
                    ));
                }
                if by_short.contains(m) {
                    assert(by_short[0] == m);
                    assert(castle_candidates(g, rights, m.piece, m.x as int, m.y as int, short).contains(
                        m,
                    ));
                }
                if m.x == x && m.y == y && pseudo_legal(g, player, last, rights, m) && !step_rule(
                    g,
                    player,
                    queen_directions(),
                    m,
                ) {
                    let c = choose|c: Castling|
                        c.color() == player && #[trigger] castle_candidates(
                            g,
                            rights,
                            m.piece,
                            x,
                            y,
                            c,
                        ).contains(m);
                    assert(c == long || c == short);
                }
            },
            None => {},
        }
    }
}

/// A move is listed for the first `n` squares exactly if it is listed for
/// one of them.
proof fn lemma_potential_upto_rule(
    g: Grid,
    player: ChessColor,
    last: Option<ChessMove>,
    rights: CastlingRights,
    n: nat,
    m: ChessMove,
)
    ensures
        potential_moves_upto(g, player, last, rights, n).contains(m) <==> exists|k: int|
            0 <= k < n && #[trigger] piece_moves(g, player, last, rights, k % 8, k / 8).contains(m),
    decreases n,
{
    if n > 0 {
        let before = potential_moves_upto(g, player, last, rights, (n - 1) as nat);
        let found = piece_moves(g, player, last, rights, (n - 1) % 8, (n - 1) / 8);
        lemma_potential_upto_rule(g, player, last, rights, (n - 1) as nat, m);
        lemma_contains_add(before, found, m);
        if before.contains(m) {
            let k = choose|k: int|
                0 <= k < n - 1 && #[trigger] piece_moves(
                    g,
                    player,
                    last,
                    rights,
                    k % 8,
                    k / 8,
                ).contains(m);
            assert(piece_moves(g, player, last, rights, k % 8, k / 8).contains(m));
        }
        if found.contains(m) {
            let k = n - 1;
            assert(piece_moves(g, player, last, rights, k % 8, k / 8).contains(m));
        }
    }
}

/// The generator lists exactly the moves that the player's pieces can make
/// by the way they move: a move is in the list if and only if its piece is
/// the player's, stands on the origin of the move, and moves as a piece of
/// its kind does.
pub proof fn lemma_potential_moves_rule(
    g: Grid,
    player: ChessColor,
    last: Option<ChessMove>,
    rights: CastlingRights,
    m: ChessMove,
)
    requires
        wf_grid(g),
    ensures
        potential_moves(g, player, last, rights).contains(m) <==> pseudo_legal(
            g,
            player,
            last,
            rights,
            m,
        ),
{
    lemma_potential_upto_rule(g, player, last, rights, 64, m);
    if potential_moves(g, player, last, rights).contains(m) {
        let k = choose|k: int|
            0 <= k < 64 && #[trigger] piece_moves(g, player, last, rights, k % 8, k / 8).contains(
                m,
            );
        lemma_piece_rule(g, player, last, rights, k % 8, k / 8, m);
    }
    if pseudo_legal(g, player, last, rights, m) {
        let k = 8 * (m.y as int) + (m.x as int);
        assert(k % 8 == m.x && k / 8 == m.y);
        lemma_piece_rule(g, player, last, rights, m.x as int, m.y as int, m);
        assert(piece_moves(g, player, last, rights, k % 8, k / 8).contains(m));
    }
}

/// The legal moves of a position are exactly the moves that the pieces of
/// the side to move can make by the way they move and that the side may
/// make: none is missing from the list, and none is listed that is not
/// one.
pub proof fn lemma_valid_moves_rule(p: Position, m: ChessMove)
    requires
        p.wf(),
    ensures
        p.valid_moves().contains(m) <==> pseudo_legal(p.grid, p.player, p.last, p.rights, m)
            && is_legal(p.grid, p.player, m),
{
    let candidates = potential_moves(p.grid, p.player, p.last, p.rights);
    lemma_potential_moves_rule(p.grid, p.player, p.last, p.rights, m);
    if p.valid_moves().contains(m) {
        lemma_valid_move_fits(p, m);
    }
    if candidates.contains(m) && is_legal(p.grid, p.player, m) {
        let i = choose|i: int| 0 <= i < candidates.len() && candidates[i] == m;
        candidates.lemma_filter_contains(legal_filter(p.grid, p.player), i);
    }
}

} // verus!
