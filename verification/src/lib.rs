//! A chess rules engine with a game-tree search: board and move
//! representation, legal-move generation, position notation, static
//! evaluation and alpha-beta minimax. Every function is verified against
//! the contract it carries, with one exception: the draw of a random index
//! calls the `rand` crate, and the contract of that call is taken on trust.
//!
//! Three choices run through the crate:
//!
//! - Scores are whole numbers of hundredths of a pawn: the material of the
//!   board, and five hundredths for each legal move of the side to move.
//!   There is no fractional scoring anywhere.
//! - A position without legal moves counts as lost for the side to move if
//!   its king is attacked, and as even if not.
//! - The notation of a position carries a dash for the en-passant target
//!   and a zero for the half-move clock: a position keeps neither. Reading
//!   a notation checks both fields and drops them.

pub mod chess_color;
pub mod chess_square;
pub mod castling;
pub mod grid;
pub mod chess_error;
pub mod chess_move;
pub mod directions;
pub mod attack;
pub mod move_gen;
pub mod move_shape;
pub mod legality;
pub mod move_laws;
pub mod move_rules;
pub mod castling_laws;
pub mod en_passant_laws;
pub mod chess_board;
pub mod candidate;
pub mod notation;
pub mod notation_import;
pub mod notation_laws;
pub mod chess_scoring;
pub mod minimax;
pub mod thought_node;
pub mod multi_thought_node;
pub mod random_move;
