use vstd::prelude::*;
use crate::attack::{in_check, is_attacked, is_check, king_in_check};
use crate::castling::{Castling, CastlingRights};
use crate::chess_board::copy_board;
use crate::chess_color::ChessColor;
use crate::chess_move::{
    castle_path_clear,
    do_move,
    do_move_outcome,
    lemma_undo_restores,
    move_fits,
    undo_move,
    ChessMove,
};
use crate::chess_square::ChessSquare;
use crate::grid::{grid_of, grid_set, lemma_grid_of_wf, Grid, Squares};
use crate::move_gen::{castle_path_is_clear, get_potential_moves, potential_moves};
use crate::move_shape::{all_fit, lemma_potential_moves_fit};

verus! {

/// The board with the castling king taken from its home square and put on
/// the given column of its row.
pub open spec fn king_placed(g: Grid, c: Castling, column: int) -> Grid {
    grid_set(
        grid_set(g, c.king_from(), c.row(), ChessSquare::Empty),
        column,
        c.row(),
        c.king(),
    )
}

/// Whether the castling king, put on the given column of its row, is not
/// attacked there.
pub open spec fn king_safe_on(g: Grid, c: Castling, column: int) -> bool {
    !is_attacked(king_placed(g, c, column), column, c.row(), c.color())
}

/// Whether the king is attacked on none of the three squares of its way:
/// the one it starts from, the one it passes over, the one it arrives on.
pub open spec fn castle_path_safe(g: Grid, c: Castling) -> bool {
    &&& king_safe_on(g, c, c.king_from())
    &&& king_safe_on(g, c, c.rook_to())
    &&& king_safe_on(g, c, c.king_to())
}

/// Whether the player may make the move. It must be applicable to the
/// board. A castling then needs empty squares between king and rook and a
/// king that is attacked nowhere on its way; any other move needs the
/// player's king not to be attacked once the move is made.
pub open spec fn is_legal(g: Grid, player: ChessColor, m: ChessMove) -> bool {
    match do_move_outcome(g, m) {
        Ok(after) => match m.castling {
            Some(c) => castle_path_clear(g, c) && castle_path_safe(g, c),
            None => !in_check(after, player),
        },
        Err(_) => false,
    }
}

/// The test by which the legal moves are picked from the list of moves.
pub open spec fn legal_filter(g: Grid, player: ChessColor) -> spec_fn(ChessMove) -> bool {
    |m: ChessMove| is_legal(g, player, m)
}

/// The legal moves of the player: those of the moves its pieces can make
/// that it may make, in the order in which they are generated.
pub open spec fn valid_moves(
    g: Grid,
    player: ChessColor,
    last: Option<ChessMove>,
    rights: CastlingRights,
) -> Seq<ChessMove> {
    potential_moves(g, player, last, rights).filter(legal_filter(g, player))
}

/// Tells whether the castling king, put on the given column of its row,
/// is not attacked there.
pub fn king_is_safe_on(board: &Squares, castling: Castling, column: usize) -> (safe: bool)
    requires
        column < 8,
    ensures
        safe == king_safe_on(grid_of(*board), castling, column as int),
{
    let mut scratch = copy_board(board);
    let row = castling.home_row();
    let color = match castling {
        Castling::WhiteShort | Castling::WhiteLong => ChessColor::White,
        Castling::BlackShort | Castling::BlackLong => ChessColor::Black,
    };
    scratch[row][4] = ChessSquare::Empty;
    scratch[row][column] = castling.king_piece();
    assert(grid_of(scratch) =~~= king_placed(grid_of(*board), castling, column as int));
    !is_check(column, row, &scratch, color)
}

/// Tells whether the king is attacked on none of the three squares of its
/// way.
pub fn castle_path_is_safe(board: &Squares, castling: Castling) -> (safe: bool)
    ensures
        safe == castle_path_safe(grid_of(*board), castling),
{
    king_is_safe_on(board, castling, 4) && king_is_safe_on(
        board,
        castling,
        castling.rook_target(),
    ) && king_is_safe_on(board, castling, castling.king_target())
}

/// Tells whether the player may make a move that agrees with the board.
/// The move is tried on the board and taken back: the board is left as it
/// was found.
fn move_is_legal(chess_move: &ChessMove, player: &ChessColor, board: &mut Squares) -> (legal:
    bool)
    requires
        move_fits(grid_of(*old(board)), *player, *chess_move),
    ensures
        legal == is_legal(grid_of(*old(board)), *player, *chess_move),
        grid_of(*final(board)) == grid_of(*old(board)),
{
    let ghost g = grid_of(*board);
    proof {
        lemma_grid_of_wf(*board);
    }
    match do_move(chess_move, board) {
        Err(_) => false,
        Ok(_) => {
            let check = king_in_check(board, *player);
            proof {
                lemma_undo_restores(g, *player, *chess_move);
            }
            let _ = undo_move(chess_move, board);
            assert(grid_of(*board) == g);
            match chess_move.castling {
                Some(c) => castle_path_is_clear(board, c) && castle_path_is_safe(board, c),
                None => !check,
            }
        },
    }
}

/// Returns the legal moves of the player, in the order in which they are
/// generated.
pub fn get_valid_moves(
    last_move: &Option<ChessMove>,
    player: &ChessColor,
    board: &Squares,
    available_castling: &CastlingRights,
) -> (moves: Vec<ChessMove>)
    ensures
        moves@ == valid_moves(grid_of(*board), *player, *last_move, *available_castling),
{
    let ghost g = grid_of(*board);
    let mut testing_board = copy_board(board);
    let candidates = get_potential_moves(last_move, player, board, available_castling);
    proof {
        lemma_grid_of_wf(*board);
        lemma_potential_moves_fit(g, *player, *last_move, *available_castling);
    }
    let mut moves: Vec<ChessMove> = Vec::new();
    let mut i: usize = 0;
    assert(candidates@.take(0) =~= Seq::<ChessMove>::empty());
    assert(candidates@.take(0).filter(legal_filter(g, *player)) =~= Seq::<ChessMove>::empty())
        by {
        reveal(Seq::filter);
    }
    while i < candidates.len()
        invariant
            i <= candidates.len(),
            g == grid_of(*board),
            g == grid_of(testing_board),
            all_fit(g, *player, *last_move, candidates@),
            candidates@ == potential_moves(g, *player, *last_move, *available_castling),
            moves@ == candidates@.take(i as int).filter(legal_filter(g, *player)),
        decreases candidates.len() - i,
    {
        let m = candidates[i];
        assert(move_fits(g, *player, candidates@[i as int]));
        let legal = move_is_legal(&m, player, &mut testing_board);
        proof {
            let upto = candidates@.take(i as int + 1);
            assert(upto.drop_last() =~= candidates@.take(i as int));
            assert(upto.last() == m);
            reveal(Seq::filter);
        }
        if legal {
            moves.push(m);
        }
        i = i + 1;
    }
    assert(candidates@.take(i as int) =~= candidates@);
    moves
}

} // verus!
