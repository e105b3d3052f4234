use vstd::prelude::*;
use crate::chess_color::ChessColor;

verus! {

/// The four directions along rows and columns, as steps in x and y.
pub open spec fn rook_directions() -> Seq<(i32, i32)> {
    seq![(-1i32, 0i32), (1i32, 0i32), (0i32, -1i32), (0i32, 1i32)]
}

/// The four diagonal directions.
pub open spec fn bishop_directions() -> Seq<(i32, i32)> {
    seq![(-1i32, -1i32), (-1i32, 1i32), (1i32, 1i32), (1i32, -1i32)]
}

/// All eight directions: those of the rook, then those of the bishop.
pub open spec fn queen_directions() -> Seq<(i32, i32)> {
    seq![
        (-1i32, 0i32),
        (1i32, 0i32),
        (0i32, -1i32),
        (0i32, 1i32),
        (-1i32, -1i32),
        (-1i32, 1i32),
        (1i32, 1i32),
        (1i32, -1i32),
    ]
}

/// The eight jumps of a knight.
pub open spec fn knight_moves() -> Seq<(i32, i32)> {
    seq![
        (-1i32, 2i32),
        (1i32, 2i32),
        (2i32, 1i32),
        (2i32, -1i32),
        (-1i32, -2i32),
        (1i32, -2i32),
        (-2i32, 1i32),
        (-2i32, -1i32),
    ]
}

/// Where, seen from a square, the enemy pawns stand that attack a piece of
/// the given colour on it.
pub open spec fn pawn_attack_directions(color: ChessColor) -> Seq<(i32, i32)> {
    match color {
        ChessColor::White => seq![(-1i32, 1i32), (1i32, 1i32)],
        ChessColor::Black => seq![(-1i32, -1i32), (1i32, -1i32)],
    }
}

/// Whether every step is to a neighbouring square.
pub open spec fn unit_steps(dirs: Seq<(i32, i32)>) -> bool {
    forall|i: int|
        0 <= i < dirs.len() ==> {
            &&& -1 <= (#[trigger] dirs[i]).0 <= 1
            &&& -1 <= dirs[i].1 <= 1
            &&& (dirs[i].0 != 0 || dirs[i].1 != 0)
        }
}

/// Whether every step stays within two squares in x and in y.
pub open spec fn short_steps(dirs: Seq<(i32, i32)>) -> bool {
    forall|i: int|
        0 <= i < dirs.len() ==> {
            &&& -2 <= (#[trigger] dirs[i]).0 <= 2
            &&& -2 <= dirs[i].1 <= 2
        }
}

/// Returns the directions of a rook.
pub fn get_rook_directions() -> (dirs: Vec<(i32, i32)>)
    ensures
        dirs@ == rook_directions(),
        unit_steps(dirs@),
{
    let dirs = vec![(-1i32, 0i32), (1i32, 0i32), (0i32, -1i32), (0i32, 1i32)];
    assert(dirs@ =~= rook_directions());
    dirs
}

/// Returns the directions of a bishop.
pub fn get_bishop_directions() -> (dirs: Vec<(i32, i32)>)
    ensures
        dirs@ == bishop_directions(),
        unit_steps(dirs@),
{
    let dirs = vec![(-1i32, -1i32), (-1i32, 1i32), (1i32, 1i32), (1i32, -1i32)];
    assert(dirs@ =~= bishop_directions());
    dirs
}

/// Returns the directions of a queen, which are also the steps of a king.
pub fn get_queen_directions() -> (dirs: Vec<(i32, i32)>)
    ensures
        dirs@ == queen_directions(),
        unit_steps(dirs@),
{
    let dirs = vec![
        (-1i32, 0i32),
        (1i32, 0i32),
        (0i32, -1i32),
        (0i32, 1i32),
        (-1i32, -1i32),
        (-1i32, 1i32),
        (1i32, 1i32),
        (1i32, -1i32),
    ];
    assert(dirs@ =~= queen_directions());
    dirs
}

/// Returns the jumps of a knight.
pub fn get_knight_moves() -> (jumps: Vec<(i32, i32)>)
    ensures
        jumps@ == knight_moves(),
        short_steps(jumps@),
{
    let jumps = vec![
        (-1i32, 2i32),
        (1i32, 2i32),
        (2i32, 1i32),
        (2i32, -1i32),
        (-1i32, -2i32),
        (1i32, -2i32),
        (-2i32, 1i32),
        (-2i32, -1i32),
    ];
    assert(jumps@ =~= knight_moves());
    jumps
}

/// Returns the places from which enemy pawns attack a piece of the given
/// colour.
pub fn get_pawn_attack_directions(color: ChessColor) -> (dirs: Vec<(i32, i32)>)
    ensures
        dirs@ == pawn_attack_directions(color),
        short_steps(dirs@),
{
    let dirs = match color {
        ChessColor::White => vec![(-1i32, 1i32), (1i32, 1i32)],
        ChessColor::Black => vec![(-1i32, -1i32), (1i32, -1i32)],
    };
    assert(dirs@ =~= pawn_attack_directions(color));
    dirs
}

} // verus!
