use vstd::prelude::*;
use crate::attack::{in_check, is_attacked};
use crate::castling_laws::lemma_castled_king_is_safe;
use crate::castling::CastlingRights;
use crate::chess_board::Position;
use crate::chess_color::ChessColor;
use crate::chess_move::{castle_path_clear, do_move_outcome, pawn_of, promotion_pieces, ChessMove};
use crate::chess_square::ChessSquare;
use crate::grid::{wf_grid, Grid};
use crate::legality::{castle_path_safe, is_legal, legal_filter};
use crate::move_gen::{is_double_push, potential_moves};
use crate::move_shape::{lemma_potential_moves_fit, move_fits_after, promoted_to};

verus! {

/// A move that the generator lists agrees with the board and with the
/// move made before.
pub proof fn lemma_potential_move_fits(
    g: Grid,
    player: ChessColor,
    last: Option<ChessMove>,
    rights: CastlingRights,
    m: ChessMove,
)
    requires
        wf_grid(g),
        potential_moves(g, player, last, rights).contains(m),
    ensures
        move_fits_after(g, player, last, m),
{
    let moves = potential_moves(g, player, last, rights);
    lemma_potential_moves_fit(g, player, last, rights);
    let i = choose|i: int| 0 <= i < moves.len() && moves[i] == m;
    assert(move_fits_after(g, player, last, moves[i]));
}

/// A legal move is one of the moves that the generator lists, passes the
/// test of legality, and agrees with the board and with the move made
/// before.
pub proof fn lemma_valid_move_fits(p: Position, m: ChessMove)
    requires
        p.wf(),
        p.valid_moves().contains(m),
    ensures
        potential_moves(p.grid, p.player, p.last, p.rights).contains(m),
        is_legal(p.grid, p.player, m),
        move_fits_after(p.grid, p.player, p.last, m),
{
    let candidates = potential_moves(p.grid, p.player, p.last, p.rights);
    let test = legal_filter(p.grid, p.player);
    let kept = candidates.filter(test);
    let i = choose|i: int| 0 <= i < kept.len() && kept[i] == m;
    candidates.lemma_filter_pred(test, i);
    candidates.lemma_filter_contains_rev(test, m);
    lemma_potential_move_fits(p.grid, p.player, p.last, p.rights, m);
}

/// Whether two moves differ in nothing but the piece that the pawn turns
/// into.
pub open spec fn same_but_promotion(a: ChessMove, b: ChessMove) -> bool {
    promoted_to(a, ChessSquare::Empty) == promoted_to(b, ChessSquare::Empty)
}

/// A pawn that reaches the first or the last row is promoted, and the
/// generator lists its move once for each of the four pieces it can turn
/// into and in no other form: the moves of the list that differ from it
/// in nothing but the promotion are those four.
pub proof fn lemma_promotion_is_forced(
    g: Grid,
    player: ChessColor,
    last: Option<ChessMove>,
    rights: CastlingRights,
    m: ChessMove,
)
    requires
        wf_grid(g),
        potential_moves(g, player, last, rights).contains(m),
        m.piece == pawn_of(player),
        m.to_y == 0 || m.to_y == 7,
    ensures
        m.promotion matches Some(promoted) && promotion_pieces(player).contains(promoted),
        forall|promoted: ChessSquare|
            promotion_pieces(player).contains(promoted) ==> potential_moves(
                g,
                player,
                last,
                rights,
            ).contains(#[trigger] promoted_to(m, promoted)),
        forall|other: ChessMove|
            potential_moves(g, player, last, rights).contains(other) && #[trigger] same_but_promotion(
                other,
                m,
            ) ==> promotion_pieces(player).contains(other.promotion->0) && other == promoted_to(
                m,
                other.promotion->0,
            ),
        promotion_pieces(player).len() == 4,
        promotion_pieces(player).no_duplicates(),
{
    let moves = potential_moves(g, player, last, rights);
    lemma_potential_moves_fit(g, player, last, rights);
    lemma_potential_move_fits(g, player, last, rights, m);
    let i = choose|i: int| 0 <= i < moves.len() && moves[i] == m;
    assert forall|promoted: ChessSquare| promotion_pieces(player).contains(promoted) implies moves.contains(
        #[trigger] promoted_to(m, promoted),
    ) by {
        assert(moves.contains(promoted_to(moves[i], promoted)));
    }
    assert forall|other: ChessMove|
        moves.contains(other) && #[trigger] same_but_promotion(other, m) implies promotion_pieces(
        player,
    ).contains(other.promotion->0) && other == promoted_to(m, other.promotion->0) by {
        lemma_potential_move_fits(g, player, last, rights, other);
    }
}

/// Nothing but a pawn on the first or the last row is promoted.
pub proof fn lemma_only_arriving_pawns_promote(
    g: Grid,
    player: ChessColor,
    last: Option<ChessMove>,
    rights: CastlingRights,
    m: ChessMove,
)
    requires
        wf_grid(g),
        potential_moves(g, player, last, rights).contains(m),
        m.promotion is Some,
    ensures
        m.piece == pawn_of(player),
        m.to_y == 0 || m.to_y == 7,
        m.castling is None,
        !m.en_passant,
{
    lemma_potential_move_fits(g, player, last, rights, m);
}

/// A capture en passant is offered only in answer to the two-square
/// advance of the pawn it captures: the move made just before was that
/// advance, by an enemy pawn that came to stand beside the capturing pawn.
/// With no move made before, or any other move, none is offered.
pub proof fn lemma_en_passant_follows_double_push(
    g: Grid,
    player: ChessColor,
    last: Option<ChessMove>,
    rights: CastlingRights,
    m: ChessMove,
)
    requires
        wf_grid(g),
        potential_moves(g, player, last, rights).contains(m),
        m.en_passant,
    ensures
        last matches Some(pushed) && {
            &&& is_double_push(pushed)
            &&& pushed.piece == pawn_of(player.opposite())
            &&& pushed.to_y == m.y
            &&& (pushed.to_x == m.x + 1 || pushed.to_x + 1 == m.x)
            &&& m.to_x == pushed.to_x
            &&& m.capture == Some(pushed.piece)
            &&& m.piece == pawn_of(player)
        },
{
    lemma_potential_move_fits(g, player, last, rights, m);
}

/// A legal move never leaves the player's king attacked, and a legal
/// castling never takes the king from, over or onto an attacked square:
/// after a legal move that is no castling, no king of the player stands
/// attacked; for a legal castling the squares between king and rook are
/// empty and the king is attacked on none of the three squares of its
/// way, nor once the rook stands beside it.
pub proof fn lemma_legal_move_keeps_king_safe(p: Position, m: ChessMove)
    requires
        p.wf(),
        p.valid_moves().contains(m),
    ensures
        do_move_outcome(p.grid, m) is Ok,
        match m.castling {
            Some(c) => {
                &&& c.color() == p.player
                &&& castle_path_clear(p.grid, c)
                &&& castle_path_safe(p.grid, c)
                &&& !is_attacked(p.after(m).grid, c.king_to(), c.row(), p.player)
            },
            None => !in_check(p.after(m).grid, p.player),
        },
{
    lemma_valid_move_fits(p, m);
    if m.castling is Some {
        lemma_castled_king_is_safe(p.grid, m, m.castling->0);
    }
}

} // verus!
