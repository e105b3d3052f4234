use rand::rngs::StdRng;
use rand::Rng;
use vstd::prelude::*;
use crate::chess_board::ChessBoard;
use crate::chess_move::ChessMove;

verus! {

/// The standard generator of the `rand` crate. Nothing is known of what
/// it holds.
#[verifier::external_type_specification]
#[verifier::external_body]
pub struct ExStdRng(StdRng);

/// Draws an index below `count` with `Rng::gen_range` of the `rand` crate,
/// called on the range from 0 to `count`. That call panics on an empty
/// range, which `count > 0` rules out, and returns a value of the range;
/// which value is not known.
#[verifier::external_body]
fn random_index(rng: &mut StdRng, count: usize) -> (index: usize)
    requires
        count > 0,
    ensures
        index < count,
{
    rng.gen_range(0..count)
}

/// Returns the move at the given place of a list, if the list is that
/// long.
pub fn move_at(moves: &Vec<ChessMove>, index: usize) -> (picked: Option<ChessMove>)
    ensures
        picked == if index < moves.len() {
            Some(moves@[index as int])
        } else {
            None::<ChessMove>
        },
{
    if index < moves.len() {
        Some(moves[index])
    } else {
        None
    }
}

/// Picks one of the legal moves of a position at random with the given
/// generator. A position without legal moves gives none.
pub fn pick_random_move(board: &ChessBoard, rng: &mut StdRng) -> (picked: Option<ChessMove>)
    ensures
        picked is None <==> board@.valid_moves().len() == 0,
        picked matches Some(m) ==> board@.valid_moves().contains(m),
{
    let moves = board.get_valid_moves();
    if moves.len() == 0 {
        return None;
    }
    let index = random_index(rng, moves.len());
    move_at(&moves, index)
}

} // verus!
