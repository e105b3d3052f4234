use vstd::prelude::*;
use vstd::string::StringExecFns;
use crate::chess_color::ChessColor;

verus! {

/// What one square of the board holds: nothing, or one of the twelve pieces.
#[derive(Clone, Copy, Debug, PartialEq, Eq, Hash, Structural)]
pub enum ChessSquare {
    Empty,
    WhitePawn,
    WhiteRook,
    WhiteKnight,
    WhiteBishop,
    WhiteQueen,
    WhiteKing,
    BlackPawn,
    BlackRook,
    BlackKnight,
    BlackBishop,
    BlackQueen,
    BlackKing,
}

/// The six kinds of piece, without their colour.
#[derive(Clone, Copy, Debug, PartialEq, Eq, Hash, Structural)]
pub enum PieceKind {
    Pawn,
    Rook,
    Knight,
    Bishop,
    Queen,
    King,
}

impl ChessSquare {
    /// Whether the square holds a piece.
    pub open spec fn is_piece(self) -> bool {
        self != ChessSquare::Empty
    }

    /// The colour of the piece on the square. An empty square has no colour;
    /// the value chosen for it here is never relied upon.
    pub open spec fn color(self) -> ChessColor {
        match self {
            ChessSquare::BlackPawn
            | ChessSquare::BlackRook
            | ChessSquare::BlackKnight
            | ChessSquare::BlackBishop
            | ChessSquare::BlackQueen
            | ChessSquare::BlackKing => ChessColor::Black,
            _ => ChessColor::White,
        }
    }

    /// Whether the square holds a piece of the given colour.
    pub open spec fn has_color(self, color: ChessColor) -> bool {
        self.is_piece() && self.color() == color
    }

    /// The kind of the piece on the square, if any.
    pub open spec fn kind(self) -> Option<PieceKind> {
        match self {
            ChessSquare::Empty => None,
            ChessSquare::WhitePawn | ChessSquare::BlackPawn => Some(PieceKind::Pawn),
            ChessSquare::WhiteRook | ChessSquare::BlackRook => Some(PieceKind::Rook),
            ChessSquare::WhiteKnight | ChessSquare::BlackKnight => Some(PieceKind::Knight),
            ChessSquare::WhiteBishop | ChessSquare::BlackBishop => Some(PieceKind::Bishop),
            ChessSquare::WhiteQueen | ChessSquare::BlackQueen => Some(PieceKind::Queen),
            ChessSquare::WhiteKing | ChessSquare::BlackKing => Some(PieceKind::King),
        }
    }

    /// The piece of the given kind and colour.
    pub open spec fn piece(color: ChessColor, kind: PieceKind) -> ChessSquare {
        match (color, kind) {
            (ChessColor::White, PieceKind::Pawn) => ChessSquare::WhitePawn,
            (ChessColor::White, PieceKind::Rook) => ChessSquare::WhiteRook,
            (ChessColor::White, PieceKind::Knight) => ChessSquare::WhiteKnight,
            (ChessColor::White, PieceKind::Bishop) => ChessSquare::WhiteBishop,
            (ChessColor::White, PieceKind::Queen) => ChessSquare::WhiteQueen,
            (ChessColor::White, PieceKind::King) => ChessSquare::WhiteKing,
            (ChessColor::Black, PieceKind::Pawn) => ChessSquare::BlackPawn,
            (ChessColor::Black, PieceKind::Rook) => ChessSquare::BlackRook,
            (ChessColor::Black, PieceKind::Knight) => ChessSquare::BlackKnight,
            (ChessColor::Black, PieceKind::Bishop) => ChessSquare::BlackBishop,
            (ChessColor::Black, PieceKind::Queen) => ChessSquare::BlackQueen,
            (ChessColor::Black, PieceKind::King) => ChessSquare::BlackKing,
        }
    }

    /// The display name of the square's content.
    pub open spec fn name(self) -> Seq<char> {
        match self {
            ChessSquare::Empty => "Empty"@,
            ChessSquare::WhitePawn => "WhitePawn"@,
            ChessSquare::WhiteRook => "WhiteRook"@,
            ChessSquare::WhiteKnight => "WhiteKnight"@,
            ChessSquare::WhiteBishop => "WhiteBishop"@,
            ChessSquare::WhiteQueen => "WhiteQueen"@,
            ChessSquare::WhiteKing => "WhiteKing"@,
            ChessSquare::BlackPawn => "BlackPawn"@,
            ChessSquare::BlackRook => "BlackRook"@,
            ChessSquare::BlackKnight => "BlackKnight"@,
            ChessSquare::BlackBishop => "BlackBishop"@,
            ChessSquare::BlackQueen => "BlackQueen"@,
            ChessSquare::BlackKing => "BlackKing"@,
        }
    }

    /// The letter that stands for the piece in position notation: upper case
    /// for White, lower case for Black. Only pieces have a letter.
    pub open spec fn letter(self) -> char
        recommends
            self.is_piece(),
    {
        match self {
            ChessSquare::WhitePawn => 'P',
            ChessSquare::WhiteRook => 'R',
            ChessSquare::WhiteKnight => 'N',
            ChessSquare::WhiteBishop => 'B',
            ChessSquare::WhiteQueen => 'Q',
            ChessSquare::WhiteKing => 'K',
            ChessSquare::BlackPawn => 'p',
            ChessSquare::BlackRook => 'r',
            ChessSquare::BlackKnight => 'n',
            ChessSquare::BlackBishop => 'b',
            ChessSquare::BlackQueen => 'q',
            ChessSquare::BlackKing => 'k',
            ChessSquare::Empty => ' ',
        }
    }

    /// Returns the display name of the square's content.
    pub fn to_string(&self) -> (text: String)
        ensures
            text@ == self.name(),
    {
        match self {
            ChessSquare::Empty => String::from_str("Empty"),
            ChessSquare::WhitePawn => String::from_str("WhitePawn"),
            ChessSquare::WhiteRook => String::from_str("WhiteRook"),
            ChessSquare::WhiteKnight => String::from_str("WhiteKnight"),
            ChessSquare::WhiteBishop => String::from_str("WhiteBishop"),
            ChessSquare::WhiteQueen => String::from_str("WhiteQueen"),
            ChessSquare::WhiteKing => String::from_str("WhiteKing"),
            ChessSquare::BlackPawn => String::from_str("BlackPawn"),
            ChessSquare::BlackRook => String::from_str("BlackRook"),
            ChessSquare::BlackKnight => String::from_str("BlackKnight"),
            ChessSquare::BlackBishop => String::from_str("BlackBishop"),
            ChessSquare::BlackQueen => String::from_str("BlackQueen"),
            ChessSquare::BlackKing => String::from_str("BlackKing"),
        }
    }

    /// Returns the notation letter of a piece as a character.
    pub fn notation_letter(&self) -> (c: char)
        requires
            self.is_piece(),
        ensures
            c == self.letter(),
    {
        match self {
            ChessSquare::WhitePawn => 'P',
            ChessSquare::WhiteRook => 'R',
            ChessSquare::WhiteKnight => 'N',
            ChessSquare::WhiteBishop => 'B',
            ChessSquare::WhiteQueen => 'Q',
            ChessSquare::WhiteKing => 'K',
            ChessSquare::BlackPawn => 'p',
            ChessSquare::BlackRook => 'r',
            ChessSquare::BlackKnight => 'n',
            ChessSquare::BlackBishop => 'b',
            ChessSquare::BlackQueen => 'q',
            _ => 'k',
        }
    }

    /// Returns the notation letter of a piece as a one-character string.
    pub fn get_char(&self) -> (text: String)
        requires
            self.is_piece(),
        ensures
            text@ == seq![self.letter()],
    {
        proof {
            reveal_strlit("P");
            reveal_strlit("R");
            reveal_strlit("N");
            reveal_strlit("B");
            reveal_strlit("Q");
            reveal_strlit("K");
            reveal_strlit("p");
            reveal_strlit("r");
            reveal_strlit("n");
            reveal_strlit("b");
            reveal_strlit("q");
            reveal_strlit("k");
        }
        let text = match self {
            ChessSquare::WhitePawn => String::from_str("P"),
            ChessSquare::WhiteRook => String::from_str("R"),
            ChessSquare::WhiteKnight => String::from_str("N"),
            ChessSquare::WhiteBishop => String::from_str("B"),
            ChessSquare::WhiteQueen => String::from_str("Q"),
            ChessSquare::WhiteKing => String::from_str("K"),
            ChessSquare::BlackPawn => String::from_str("p"),
            ChessSquare::BlackRook => String::from_str("r"),
            ChessSquare::BlackKnight => String::from_str("n"),
            ChessSquare::BlackBishop => String::from_str("b"),
            ChessSquare::BlackQueen => String::from_str("q"),
            _ => String::from_str("k"),
        };
        assert(text@ =~= seq![self.letter()]);
        text
    }

    /// Returns the colour of a piece.
    pub fn get_color(&self) -> (color: ChessColor)
        requires
            self.is_piece(),
        ensures
            color == self.color(),
            self.has_color(color),
    {
        match self {
            ChessSquare::WhitePawn
            | ChessSquare::WhiteRook
            | ChessSquare::WhiteKnight
            | ChessSquare::WhiteBishop
            | ChessSquare::WhiteQueen
            | ChessSquare::WhiteKing => ChessColor::White,
            _ => ChessColor::Black,
        }
    }
}

} // verus!
