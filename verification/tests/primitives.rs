use chess_core::castling::{all_castling, Castling, CastlingRights};
use chess_core::chess_color::ChessColor;
use chess_core::chess_square::ChessSquare;

const PIECES: [ChessSquare; 12] = [
    ChessSquare::WhitePawn,
    ChessSquare::WhiteRook,
    ChessSquare::WhiteKnight,
    ChessSquare::WhiteBishop,
    ChessSquare::WhiteQueen,
    ChessSquare::WhiteKing,
    ChessSquare::BlackPawn,
    ChessSquare::BlackRook,
    ChessSquare::BlackKnight,
    ChessSquare::BlackBishop,
    ChessSquare::BlackQueen,
    ChessSquare::BlackKing,
];

#[test]
fn opposite_of_white_is_black() {
    assert_eq!(ChessColor::White.get_opposite(), ChessColor::Black);
    assert_eq!(ChessColor::Black.get_opposite(), ChessColor::White);
}

#[test]
fn opposite_twice_is_the_colour_itself() {
    for color in [ChessColor::White, ChessColor::Black] {
        assert_eq!(color.get_opposite().get_opposite(), color);
        assert_ne!(color.get_opposite(), color);
    }
}

#[test]
fn squares_have_their_names() {
    assert_eq!(ChessSquare::Empty.to_string(), "Empty");
    let names = [
        "WhitePawn",
        "WhiteRook",
        "WhiteKnight",
        "WhiteBishop",
        "WhiteQueen",
        "WhiteKing",
        "BlackPawn",
        "BlackRook",
        "BlackKnight",
        "BlackBishop",
        "BlackQueen",
        "BlackKing",
    ];
    for i in 0..12 {
        assert_eq!(PIECES[i].to_string(), names[i]);
    }
}

#[test]
fn pieces_have_their_letters() {
    let letters = ["P", "R", "N", "B", "Q", "K", "p", "r", "n", "b", "q", "k"];
    for i in 0..12 {
        assert_eq!(PIECES[i].get_char(), letters[i]);
        assert_eq!(PIECES[i].notation_letter().to_string(), letters[i]);
    }
}

#[test]
fn pieces_have_their_colours() {
    for i in 0..6 {
        assert_eq!(PIECES[i].get_color(), ChessColor::White);
        assert_eq!(PIECES[i + 6].get_color(), ChessColor::Black);
    }
}

#[test]
fn a_game_starts_with_every_castling_right() {
    let rights = all_castling();
    for c in [
        Castling::WhiteShort,
        Castling::WhiteLong,
        Castling::BlackShort,
        Castling::BlackLong,
    ] {
        assert!(rights.contains(c));
    }
    assert!(!rights.is_empty());
}

#[test]
fn rights_are_given_up_one_by_one() {
    let mut rights = all_castling();
    rights.remove(Castling::WhiteLong);
    assert!(!rights.contains(Castling::WhiteLong));
    assert!(rights.contains(Castling::WhiteShort));
    rights.remove(Castling::WhiteLong);
    assert!(!rights.contains(Castling::WhiteLong));
    rights.remove(Castling::WhiteShort);
    rights.remove(Castling::BlackShort);
    assert!(!rights.is_empty());
    rights.remove(Castling::BlackLong);
    assert!(rights.is_empty());
    assert_eq!(rights, CastlingRights::none());
    rights.insert(Castling::BlackShort);
    assert!(rights.contains(Castling::BlackShort));
    assert!(!rights.is_empty());
}
