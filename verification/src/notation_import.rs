use vstd::prelude::*;
use crate::castling::{Castling, CastlingRights};
use crate::chess_board::{create_empty_board, ChessBoard, Position};
use crate::chess_color::ChessColor;
use crate::chess_error::ChessError;
use crate::chess_square::ChessSquare;
use crate::grid::{grid_of, Grid, Squares};

verus! {

/// The fields of a text: the pieces into which the separator cuts it. A
/// text without the separator is one field, and so is the empty text.
pub open spec fn fields(text: Seq<char>, sep: char) -> Seq<Seq<char>>
    decreases text.len(),
{
    if text.len() == 0 {
        seq![Seq::empty()]
    } else {
        let before = fields(text.drop_last(), sep);
        if text.last() == sep {
            before.push(Seq::empty())
        } else {
            before.update(before.len() - 1, before.last().push(text.last()))
        }
    }
}

/// The piece that a letter of the notation stands for.
pub open spec fn piece_of_letter(c: char) -> Option<ChessSquare> {
    if c == 'P' {
        Some(ChessSquare::WhitePawn)
    } else if c == 'R' {
        Some(ChessSquare::WhiteRook)
    } else if c == 'N' {
        Some(ChessSquare::WhiteKnight)
    } else if c == 'B' {
        Some(ChessSquare::WhiteBishop)
    } else if c == 'Q' {
        Some(ChessSquare::WhiteQueen)
    } else if c == 'K' {
        Some(ChessSquare::WhiteKing)
    } else if c == 'p' {
        Some(ChessSquare::BlackPawn)
    } else if c == 'r' {
        Some(ChessSquare::BlackRook)
    } else if c == 'n' {
        Some(ChessSquare::BlackKnight)
    } else if c == 'b' {
        Some(ChessSquare::BlackBishop)
    } else if c == 'q' {
        Some(ChessSquare::BlackQueen)
    } else if c == 'k' {
        Some(ChessSquare::BlackKing)
    } else {
        None
    }
}

/// The value of a decimal digit.
pub open spec fn digit_value(c: char) -> Option<int> {
    if c == '0' {
        Some(0)
    } else if c == '1' {
        Some(1)
    } else if c == '2' {
        Some(2)
    } else if c == '3' {
        Some(3)
    } else if c == '4' {
        Some(4)
    } else if c == '5' {
        Some(5)
    } else if c == '6' {
        Some(6)
    } else if c == '7' {
        Some(7)
    } else if c == '8' {
        Some(8)
    } else if c == '9' {
        Some(9)
    } else {
        None
    }
}

/// The squares that one character of a row's text stands for: the piece of
/// a letter, or as many empty squares as a digit from 1 to 8 says.
pub open spec fn squares_of_char(c: char) -> Option<Seq<ChessSquare>> {
    match piece_of_letter(c) {
        Some(piece) => Some(seq![piece]),
        None => match digit_value(c) {
            Some(d) => if 1 <= d <= 8 {
                Some(Seq::new(d as nat, |i: int| ChessSquare::Empty))
            } else {
                None
            },
            None => None,
        },
    }
}

/// The squares that a row's text stands for, however many they are; `None`
/// if a character of the text is neither a piece letter nor a digit from 1
/// to 8.
pub open spec fn expand_rank(text: Seq<char>) -> Option<Seq<ChessSquare>>
    decreases text.len(),
{
    if text.len() == 0 {
        Some(Seq::empty())
    } else {
        match (expand_rank(text.drop_last()), squares_of_char(text.last())) {
            (Some(before), Some(run)) => Some(before + run),
            _ => None,
        }
    }
}

/// The row that a text stands for: its squares, if they are eight.
pub open spec fn parse_rank(text: Seq<char>) -> Option<Seq<ChessSquare>> {
    match expand_rank(text) {
        Some(squares) => if squares.len() == 8 {
            Some(squares)
        } else {
            None
        },
        None => None,
    }
}

/// The board that a piece-placement field stands for: eight rows between
/// slashes, the row farthest from White first.
pub open spec fn parse_placement(text: Seq<char>) -> Option<Grid> {
    let ranks = fields(text, '/');
    if ranks.len() == 8 && (forall|i: int| 0 <= i < 8 ==> parse_rank(#[trigger] ranks[i]) is Some) {
        Some(Seq::new(8, |y: int| parse_rank(ranks[7 - y])->0))
    } else {
        None
    }
}

/// The side that a side-to-move field stands for.
pub open spec fn parse_side(text: Seq<char>) -> Option<ChessColor> {
    if text == seq!['w'] {
        Some(ChessColor::White)
    } else if text == seq!['b'] {
        Some(ChessColor::Black)
    } else {
        None
    }
}

/// Whether a character is one of the four letters of the castling field.
pub open spec fn is_castling_letter(c: char) -> bool {
    c == 'K' || c == 'Q' || c == 'k' || c == 'q'
}

/// The rights that a castling field stands for: none for a dash, else
/// those whose letters occur in a field made of such letters only.
pub open spec fn parse_castling(text: Seq<char>) -> Option<CastlingRights> {
    if text == seq!['-'] {
        Some(
            CastlingRights {
                white_short: false,
                white_long: false,
                black_short: false,
                black_long: false,
            },
        )
    } else if text.len() > 0 && (forall|i: int|
        0 <= i < text.len() ==> is_castling_letter(#[trigger] text[i])) {
        Some(
            CastlingRights {
                white_short: text.contains('K'),
                white_long: text.contains('Q'),
                black_short: text.contains('k'),
                black_long: text.contains('q'),
            },
        )
    } else {
        None
    }
}

/// Whether a text is a well-formed en-passant target field: a dash, or the
/// name of a square, a file from a to h and a row from 1 to 8.
pub open spec fn is_target(text: Seq<char>) -> bool {
    ||| text == seq!['-']
    ||| {
        &&& text.len() == 2
        &&& ('a' <= text[0] <= 'h')
        &&& digit_value(text[1]) matches Some(d)
        &&& 1 <= d <= 8
    }
}

/// The number that a decimal numeral stands for; `None` if the text is
/// empty or holds anything but digits.
pub open spec fn parse_decimal(text: Seq<char>) -> Option<nat>
    decreases text.len(),
{
    if text.len() == 0 {
        None
    } else {
        match digit_value(text.last()) {
            None => None,
            Some(d) => if text.len() == 1 {
                Some(d as nat)
            } else {
                match parse_decimal(text.drop_last()) {
                    Some(v) => Some((10 * v + d) as nat),
                    None => None,
                }
            },
        }
    }
}

/// The position that a notation text stands for. The text must have
/// exactly six fields with one space between two: a piece placement, a
/// side to move, a castling field, an en-passant target, a half-move clock
/// and a number of moves that fits 32 bits. The target and the clock must
/// be well formed, and are not kept: the position has no last move.
pub open spec fn parse_fen(text: Seq<char>) -> Option<Position> {
    let f = fields(text, ' ');
    if f.len() != 6 {
        None
    } else {
        match (
            parse_placement(f[0]),
            parse_side(f[1]),
            parse_castling(f[2]),
            parse_decimal(f[4]),
            parse_decimal(f[5]),
        ) {
            (Some(grid), Some(player), Some(rights), Some(_), Some(ply)) => if is_target(f[3])
                && ply <= u32::MAX {
                Some(Position { grid, player, rights, last: None, ply })
            } else {
                None
            },
            _ => None,
        }
    }
}

/// Returns the characters of a text, in order.
pub fn text_chars(text: &str) -> (chars: Vec<char>)
    ensures
        chars@ == text@,
{
    let mut chars: Vec<char> = Vec::new();
    for c in it: text.chars()
        invariant
            it.seq() == text@,
            chars@ == it.seq().take(it.index() as int),
    {
        chars.push(c);
        assert(it.seq().take(it.index() + 1) =~= it.seq().take(it.index() as int).push(c));
    }
    assert(chars@ =~= text@);
    chars
}

/// The texts that the vectors of a list hold.
pub open spec fn texts_of(list: Seq<Vec<char>>) -> Seq<Seq<char>> {
    Seq::new(list.len(), |i: int| list[i]@)
}

/// Cuts a text into its fields.
pub fn split_fields(text: &Vec<char>, sep: char) -> (list: Vec<Vec<char>>)
    ensures
        texts_of(list@) == fields(text@, sep),
{
    let mut done: Vec<Vec<char>> = Vec::new();
    let mut current: Vec<char> = Vec::new();
    let mut i: usize = 0;
    assert(text@.take(0) =~= Seq::<char>::empty());
    assert(texts_of(done@).push(current@) =~= fields(text@.take(0), sep));
    while i < text.len()
        invariant
            i <= text.len(),
            texts_of(done@).push(current@) == fields(text@.take(i as int), sep),
        decreases text.len() - i,
    {
        let c = text[i];
        let ghost upto = text@.take(i as int + 1);
        let ghost before = fields(text@.take(i as int), sep);
        assert(upto.drop_last() =~= text@.take(i as int));
        assert(upto.last() == c);
        if c == sep {
            done.push(current);
            current = Vec::new();
            assert(texts_of(done@) =~= before);
            assert(texts_of(done@).push(current@) =~= before.push(Seq::empty()));
        } else {
            current.push(c);
            assert(texts_of(done@).push(current@) =~= before.update(
                before.len() - 1,
                before.last().push(c),
            ));
        }
        i = i + 1;
    }
    assert(text@.take(i as int) =~= text@);
    let ghost all = texts_of(done@).push(current@);
    done.push(current);
    assert(texts_of(done@) =~= all);
    done
}

/// Returns the piece that a letter of the notation stands for.
pub fn letter_piece(c: char) -> (piece: Option<ChessSquare>)
    ensures
        piece == piece_of_letter(c),
{
    if c == 'P' {
        Some(ChessSquare::WhitePawn)
    } else if c == 'R' {
        Some(ChessSquare::WhiteRook)
    } else if c == 'N' {
        Some(ChessSquare::WhiteKnight)
    } else if c == 'B' {
        Some(ChessSquare::WhiteBishop)
    } else if c == 'Q' {
        Some(ChessSquare::WhiteQueen)
    } else if c == 'K' {
        Some(ChessSquare::WhiteKing)
    } else if c == 'p' {
        Some(ChessSquare::BlackPawn)
    } else if c == 'r' {
        Some(ChessSquare::BlackRook)
    } else if c == 'n' {
        Some(ChessSquare::BlackKnight)
    } else if c == 'b' {
        Some(ChessSquare::BlackBishop)
    } else if c == 'q' {
        Some(ChessSquare::BlackQueen)
    } else if c == 'k' {
        Some(ChessSquare::BlackKing)
    } else {
        None
    }
}

/// Returns the value of a decimal digit.
pub fn digit_of(c: char) -> (value: Option<u32>)
    ensures
        match value {
            Some(d) => digit_value(c) == Some(d as int) && d <= 9,
            None => digit_value(c) is None,
        },
{
    if c == '0' {
        Some(0)
    } else if c == '1' {
        Some(1)
    } else if c == '2' {
        Some(2)
    } else if c == '3' {
        Some(3)
    } else if c == '4' {
        Some(4)
    } else if c == '5' {
        Some(5)
    } else if c == '6' {
        Some(6)
    } else if c == '7' {
        Some(7)
    } else if c == '8' {
        Some(8)
    } else if c == '9' {
        Some(9)
    } else {
        None
    }
}

/// A text that stands for squares does so up to any of its characters, and
/// for no more squares there than in the whole.
pub proof fn lemma_expand_rank_prefix(text: Seq<char>, k: int)
    requires
        0 <= k <= text.len(),
        expand_rank(text) is Some,
    ensures
        expand_rank(text.take(k)) is Some,
        expand_rank(text.take(k))->0.len() <= expand_rank(text)->0.len(),
    decreases text.len(),
{
    if k == text.len() {
        assert(text.take(k) =~= text);
    } else {
        lemma_expand_rank_prefix(text.drop_last(), k);
        assert(text.drop_last().take(k) =~= text.take(k));
    }
}

/// A numeral is one up to any of its digits, and stands there for no
/// greater number than the whole.
pub proof fn lemma_parse_decimal_prefix(text: Seq<char>, k: int)
    requires
        1 <= k <= text.len(),
        parse_decimal(text) is Some,
    ensures
        parse_decimal(text.take(k)) is Some,
        parse_decimal(text.take(k))->0 <= parse_decimal(text)->0,
    decreases text.len(),
{
    if k == text.len() {
        assert(text.take(k) =~= text);
    } else {
        lemma_parse_decimal_prefix(text.drop_last(), k);
        assert(text.drop_last().take(k) =~= text.take(k));
    }
}

/// Reads one row of the board from its text.
pub fn read_rank(text: &Vec<char>) -> (row: Option<[ChessSquare; 8]>)
    ensures
        match row {
            Some(r) => parse_rank(text@) == Some(r@),
            None => parse_rank(text@) is None,
        },
{
    let e = ChessSquare::Empty;
    let mut row: [ChessSquare; 8] = [e, e, e, e, e, e, e, e];
    let mut col: usize = 0;
    let mut i: usize = 0;
    assert(text@.take(0) =~= Seq::<char>::empty());
    assert(row@.take(0) =~= Seq::<ChessSquare>::empty());
    while i < text.len()
        invariant
            i <= text.len(),
            col <= 8,
            expand_rank(text@.take(i as int)) == Some(row@.take(col as int)),
            forall|j: int| col <= j < 8 ==> row@[j] == ChessSquare::Empty,
        decreases text.len() - i,
    {
        let c = text[i];
        let ghost upto = text@.take(i as int + 1);
        let ghost before = row@.take(col as int);
        assert(upto.drop_last() =~= text@.take(i as int));
        assert(upto.last() == c);
        proof {
            if expand_rank(text@) is Some {
                lemma_expand_rank_prefix(text@, i as int + 1);
            }
        }
        match letter_piece(c) {
            Some(piece) => {
                if col >= 8 {
                    return None;
                }
                row[col] = piece;
                col = col + 1;
                assert(row@.take(col as int) =~= before + seq![piece]);
            },
            None => {
                match digit_of(c) {
                    Some(d) => {
                        if d < 1 || d > 8 || col + d as usize > 8 {
                            return None;
                        }
                        col = col + d as usize;
                        assert(row@.take(col as int) =~= before + Seq::new(
                            d as nat,
                            |k: int| ChessSquare::Empty,
                        ));
                    },
                    None => {
                        return None;
                    },
                }
            },
        }
        i = i + 1;
    }
    assert(text@.take(i as int) =~= text@);
    if col != 8 {
        return None;
    }
    assert(row@.take(8) =~= row@);
    Some(row)
}

/// Reads the board from a piece-placement field.
pub fn read_placement(text: &Vec<char>) -> (board: Option<Squares>)
    ensures
        match board {
            Some(b) => parse_placement(text@) == Some(grid_of(b)),
            None => parse_placement(text@) is None,
        },
{
    let ranks = split_fields(text, '/');
    let ghost texts = fields(text@, '/');
    if ranks.len() != 8 {
        return None;
    }
    let mut squares = create_empty_board();
    let mut i: usize = 0;
    while i < 8
        invariant
            i <= 8,
            ranks.len() == 8,
            texts == fields(text@, '/'),
            texts_of(ranks@) == texts,
            forall|j: int| 0 <= j < i ==> parse_rank(#[trigger] texts[j]) == Some(squares[7 - j]@),
        decreases 8 - i,
    {
        assert(texts[i as int] == ranks@[i as int]@);
        match read_rank(&ranks[i]) {
            Some(row) => {
                squares[7 - i] = row;
            },
            None => {
                return None;
            },
        }
        i = i + 1;
    }
    assert(grid_of(squares) =~~= Seq::new(8, |y: int| parse_rank(texts[7 - y])->0)) by {
        assert forall|y: int| 0 <= y < 8 implies grid_of(squares)[y] == parse_rank(
            texts[7 - y],
        )->0 by {
            assert(parse_rank(texts[7 - y]) == Some(squares[7 - (7 - y)]@));
        }
    }
    Some(squares)
}

/// Reads the side to move from its field.
pub fn read_side(text: &Vec<char>) -> (side: Option<ChessColor>)
    ensures
        side == parse_side(text@),
{
    if text.len() != 1 {
        assert(text@ != seq!['w'] && text@ != seq!['b']) by {
            assert(seq!['w'].len() == 1 && seq!['b'].len() == 1);
        }
        return None;
    }
    let c = text[0];
    if c == 'w' {
        assert(text@ =~= seq!['w']);
        Some(ChessColor::White)
    } else if c == 'b' {
        assert(text@ =~= seq!['b']);
        assert(text@ != seq!['w']) by {
            assert(seq!['w'][0] == 'w');
        }
        Some(ChessColor::Black)
    } else {
        assert(text@ != seq!['w'] && text@ != seq!['b']) by {
            assert(seq!['w'][0] == 'w' && seq!['b'][0] == 'b');
        }
        None
    }
}

/// Whether a character occurs among the first `i` of a text.
pub open spec fn occurs(text: Seq<char>, c: char, i: int) -> bool {
    exists|j: int| 0 <= j < i && text[j] == c
}

/// Reads the castling rights from their field.
pub fn read_castling(text: &Vec<char>) -> (rights: Option<CastlingRights>)
    ensures
        rights == parse_castling(text@),
{
    if text.len() == 1 && text[0] == '-' {
        assert(text@ =~= seq!['-']);
        return Some(CastlingRights::none());
    }
    assert(text@ != seq!['-']) by {
        assert(seq!['-'].len() == 1 && seq!['-'][0] == '-');
    }
    if text.len() == 0 {
        return None;
    }
    let mut rights = CastlingRights::none();
    let mut i: usize = 0;
    while i < text.len()
        invariant
            i <= text.len(),
            text@ != seq!['-'],
            forall|j: int| 0 <= j < i ==> is_castling_letter(#[trigger] text@[j]),
            rights.white_short == occurs(text@, 'K', i as int),
            rights.white_long == occurs(text@, 'Q', i as int),
            rights.black_short == occurs(text@, 'k', i as int),
            rights.black_long == occurs(text@, 'q', i as int),
        decreases text.len() - i,
    {
        let c = text[i];
        if c == 'K' {
            rights.insert(Castling::WhiteShort);
        } else if c == 'Q' {
            rights.insert(Castling::WhiteLong);
        } else if c == 'k' {
            rights.insert(Castling::BlackShort);
        } else if c == 'q' {
            rights.insert(Castling::BlackLong);
        } else {
            assert(!is_castling_letter(text@[i as int]));
            return None;
        }
        assert(occurs(text@, c, i as int + 1)) by {
            assert(text@[i as int] == c);
        }
        i = i + 1;
    }
    assert(text@.contains('K') == occurs(text@, 'K', text@.len() as int));
    assert(text@.contains('Q') == occurs(text@, 'Q', text@.len() as int));
    assert(text@.contains('k') == occurs(text@, 'k', text@.len() as int));
    assert(text@.contains('q') == occurs(text@, 'q', text@.len() as int));
    Some(rights)
}

/// Tells whether a text is a well-formed en-passant target field.
pub fn check_target(text: &Vec<char>) -> (valid: bool)
    ensures
        valid == is_target(text@),
{
    if text.len() == 1 {
        if text[0] == '-' {
            assert(text@ =~= seq!['-']);
            true
        } else {
            assert(text@ != seq!['-']) by {
                assert(seq!['-'][0] == '-');
            }
            false
        }
    } else if text.len() == 2 {
        assert(text@ != seq!['-']) by {
            assert(seq!['-'].len() == 1);
        }
        let file = text[0];
        match digit_of(text[1]) {
            Some(d) => 'a' <= file && file <= 'h' && 1 <= d && d <= 8,
            None => false,
        }
    } else {
        assert(text@ != seq!['-']) by {
            assert(seq!['-'].len() == 1);
        }
        false
    }
}

/// Tells whether a text is a decimal numeral.
pub fn is_numeral(text: &Vec<char>) -> (valid: bool)
    ensures
        valid == parse_decimal(text@) is Some,
{
    if text.len() == 0 {
        return false;
    }
    let mut i: usize = 0;
    while i < text.len()
        invariant
            i <= text.len(),
            i > 0 ==> parse_decimal(text@.take(i as int)) is Some,
        decreases text.len() - i,
    {
        let ghost upto = text@.take(i as int + 1);
        assert(upto.drop_last() =~= text@.take(i as int));
        assert(upto.last() == text@[i as int]);
        proof {
            if parse_decimal(text@) is Some {
                lemma_parse_decimal_prefix(text@, i as int + 1);
            }
        }
        if digit_of(text[i]).is_none() {
            return false;
        }
        i = i + 1;
    }
    assert(text@.take(i as int) =~= text@);
    true
}

/// Reads a number that fits 32 bits from its decimal numeral.
pub fn read_number(text: &Vec<char>) -> (number: Option<u32>)
    ensures
        match number {
            Some(n) => parse_decimal(text@) == Some(n as nat),
            None => parse_decimal(text@) matches Some(v) ==> v > u32::MAX,
        },
{
    if text.len() == 0 {
        return None;
    }
    let mut value: u64 = 0;
    let mut i: usize = 0;
    while i < text.len()
        invariant
            i <= text.len(),
            value <= u32::MAX,
            i == 0 ==> value == 0,
            i > 0 ==> parse_decimal(text@.take(i as int)) == Some(value as nat),
        decreases text.len() - i,
    {
        let ghost upto = text@.take(i as int + 1);
        assert(upto.drop_last() =~= text@.take(i as int));
        assert(upto.last() == text@[i as int]);
        proof {
            if parse_decimal(text@) is Some {
                lemma_parse_decimal_prefix(text@, i as int + 1);
            }
        }
        match digit_of(text[i]) {
            Some(d) => {
                let next: u64 = 10 * value + d as u64;
                assert(parse_decimal(upto) == Some(next as nat));
                if next > 0xffff_ffff {
                    return None;
                }
                value = next;
            },
            None => {
                return None;
            },
        }
        i = i + 1;
    }
    assert(text@.take(i as int) =~= text@);
    Some(value as u32)
}

/// Reads a position from its notation. A text that is no notation of a
/// position is refused.
pub fn from_forsyth_edwards_notation(fen: &String) -> (result: Result<ChessBoard, ChessError>)
    ensures
        match result {
            Ok(board) => parse_fen(fen@) == Some(board@),
            Err(e) => e == ChessError::Parse && parse_fen(fen@) is None,
        },
{
    let text = text_chars(fen.as_str());
    let parts = split_fields(&text, ' ');
    let ghost f = fields(fen@, ' ');
    if parts.len() != 6 {
        return Err(ChessError::Parse);
    }
    assert(f[0] == parts@[0]@);
    assert(f[1] == parts@[1]@);
    assert(f[2] == parts@[2]@);
    assert(f[3] == parts@[3]@);
    assert(f[4] == parts@[4]@);
    assert(f[5] == parts@[5]@);
    let squares = match read_placement(&parts[0]) {
        Some(b) => b,
        None => {
            return Err(ChessError::Parse);
        },
    };
    let current_player = match read_side(&parts[1]) {
        Some(side) => side,
        None => {
            return Err(ChessError::Parse);
        },
    };
    let available_castling = match read_castling(&parts[2]) {
        Some(rights) => rights,
        None => {
            return Err(ChessError::Parse);
        },
    };
    if !check_target(&parts[3]) {
        return Err(ChessError::Parse);
    }
    if !is_numeral(&parts[4]) {
        return Err(ChessError::Parse);
    }
    let move_number = match read_number(&parts[5]) {
        Some(n) => n,
        None => {
            return Err(ChessError::Parse);
        },
    };
    Ok(ChessBoard { last_move: None, squares, current_player, available_castling, move_number })
}

} // verus!
