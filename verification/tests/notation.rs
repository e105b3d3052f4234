use chess_core::castling::Castling;
use chess_core::chess_board::create_new_board;
use chess_core::chess_color::ChessColor;
use chess_core::chess_error::ChessError;
use chess_core::chess_move::ChessMove;
use chess_core::chess_square::ChessSquare;
use chess_core::notation::get_fen_board_part;
use chess_core::notation_import::from_forsyth_edwards_notation;

fn push(piece: ChessSquare, x: usize, y: usize, to_y: usize) -> ChessMove {
    ChessMove {
        piece,
        x,
        y,
        to_x: x,
        to_y,
        capture: None,
        promotion: None,
        castling: None,
        en_passant: false,
    }
}

#[test]
fn starting_position_is_written_in_full() {
    let board = create_new_board();
    assert_eq!(
        board.get_forsyth_edwards_notation(),
        "rnbqkbnr/pppppppp/8/8/8/8/PPPPPPPP/RNBQKBNR w KQkq - 0 0"
    );
    assert_eq!(
        get_fen_board_part(&board.squares),
        "rnbqkbnr/pppppppp/8/8/8/8/PPPPPPPP/RNBQKBNR"
    );
}

#[test]
fn two_kings_pawn_moves_show_in_the_notation() {
    let board = create_new_board();
    let board = board.do_move(&push(ChessSquare::WhitePawn, 4, 1, 3)).unwrap();
    let board = board.do_move(&push(ChessSquare::BlackPawn, 4, 6, 4)).unwrap();
    assert_eq!(
        board.get_forsyth_edwards_notation(),
        "rnbqkbnr/pppp1ppp/8/4p3/4P3/8/PPPP1PPP/RNBQKBNR w KQkq - 0 2"
    );
    assert_eq!(board.squares[3][4], ChessSquare::WhitePawn);
    assert_eq!(board.squares[4][4], ChessSquare::BlackPawn);
    assert_eq!(board.squares[1][4], ChessSquare::Empty);
    assert_eq!(board.squares[6][4], ChessSquare::Empty);
    assert_eq!(board.current_player, ChessColor::White);
    assert_eq!(board.move_number, 2);
}

#[test]
fn reading_what_was_written_gives_the_position_back() {
    let board = create_new_board();
    let board = board.do_move(&push(ChessSquare::WhitePawn, 4, 1, 3)).unwrap();
    let text = board.get_forsyth_edwards_notation();
    let read = from_forsyth_edwards_notation(&text).unwrap();
    assert_eq!(read.squares, board.squares);
    assert_eq!(read.current_player, ChessColor::Black);
    assert_eq!(read.available_castling, board.available_castling);
    assert_eq!(read.move_number, 1);
    assert_eq!(read.last_move, None);
}

#[test]
fn rows_are_read_from_the_farthest_to_the_nearest() {
    let text = String::from("4k3/8/8/8/8/8/1P6/4K2R b K e3 12 34");
    let read = from_forsyth_edwards_notation(&text).unwrap();
    assert_eq!(read.squares[7][4], ChessSquare::BlackKing);
    assert_eq!(read.squares[0][4], ChessSquare::WhiteKing);
    assert_eq!(read.squares[0][7], ChessSquare::WhiteRook);
    assert_eq!(read.squares[1][1], ChessSquare::WhitePawn);
    assert_eq!(read.current_player, ChessColor::Black);
    assert!(read.available_castling.white_short);
    assert!(!read.available_castling.white_long);
    assert!(!read.available_castling.black_short);
    assert!(!read.available_castling.black_long);
    assert_eq!(read.move_number, 34);
    assert_eq!(read.get_forsyth_edwards_notation(), "4k3/8/8/8/8/8/1P6/4K2R b K - 0 34");
}

#[test]
fn malformed_notation_is_refused() {
    let bad = [
        "",
        "rnbqkbnr/pppppppp/8/8/8/8/PPPPPPPP/RNBQKBNR w KQkq - 0",
        "rnbqkbnr/pppppppp/8/8/8/8/PPPPPPPP/RNBQKBNR w KQkq - 0 0 0",
        "rnbqkbnr/pppppppp/8/8/8/8/PPPPPPPP w KQkq - 0 0",
        "rnbqkbnr/pppppppp/9/8/8/8/PPPPPPPP/RNBQKBNR w KQkq - 0 0",
        "rnbqkbnr/pppppppp/8/8/8/8/PPPPPPPP/RNBQKBNRR w KQkq - 0 0",
        "rnbqkbnr/pppppppp/7/8/8/8/PPPPPPPP/RNBQKBNR w KQkq - 0 0",
        "rnbqkbnr/pppppppp/8/8/8/8/PPPPPPPP/RNBQKBNX w KQkq - 0 0",
        "rnbqkbnr/pppppppp/8/8/8/8/PPPPPPPP/RNBQKBNR W KQkq - 0 0",
        "rnbqkbnr/pppppppp/8/8/8/8/PPPPPPPP/RNBQKBNR w KQxq - 0 0",
        "rnbqkbnr/pppppppp/8/8/8/8/PPPPPPPP/RNBQKBNR w  - 0 0",
        "rnbqkbnr/pppppppp/8/8/8/8/PPPPPPPP/RNBQKBNR w KQkq z9 0 0",
        "rnbqkbnr/pppppppp/8/8/8/8/PPPPPPPP/RNBQKBNR w KQkq - x 0",
        "rnbqkbnr/pppppppp/8/8/8/8/PPPPPPPP/RNBQKBNR w KQkq - 0 one",
        "rnbqkbnr/pppppppp/8/8/8/8/PPPPPPPP/RNBQKBNR w KQkq - 0 4294967296",
        "rnbqkbnr/pppppppp/8/8/8/8/PPPPPPPP/RNBQKBNR w KQkq - 0 ",
    ];
    for text in bad {
        let result = from_forsyth_edwards_notation(&String::from(text));
        assert_eq!(result.err(), Some(ChessError::Parse), "{}", text);
    }
}

#[test]
fn the_largest_move_number_is_read() {
    let text = String::from("8/8/8/8/8/8/8/8 w - - 0 4294967295");
    let read = from_forsyth_edwards_notation(&text).unwrap();
    assert_eq!(read.move_number, u32::MAX);
    assert_eq!(read.get_forsyth_edwards_notation(), "8/8/8/8/8/8/8/8 w - - 0 4294967295");
}

#[test]
fn moves_are_written_in_the_short_form() {
    let knight = ChessMove {
        piece: ChessSquare::WhiteKnight,
        x: 6,
        y: 0,
        to_x: 5,
        to_y: 2,
        capture: None,
        promotion: None,
        castling: None,
        en_passant: false,
    };
    assert_eq!(knight.to_string(), "Nf3");
    assert_eq!(push(ChessSquare::WhitePawn, 4, 1, 3).to_string(), "e4");
    assert_eq!(push(ChessSquare::BlackPawn, 0, 6, 5).to_string(), "a6");
    let mut capture = push(ChessSquare::BlackQueen, 7, 7, 0);
    capture.capture = Some(ChessSquare::WhiteRook);
    assert_eq!(capture.to_string(), "Qh1");
    assert_eq!(push(ChessSquare::BlackKing, 4, 7, 6).to_string(), "Ke7");
    assert_eq!(push(ChessSquare::WhiteRook, 0, 0, 7).to_string(), "Ra8");
    assert_eq!(push(ChessSquare::BlackBishop, 2, 7, 6).to_string(), "Bc7");
    let mut short = push(ChessSquare::WhiteKing, 4, 0, 0);
    short.to_x = 6;
    short.castling = Some(Castling::WhiteShort);
    assert_eq!(short.to_string(), "O-O");
    short.castling = Some(Castling::BlackShort);
    assert_eq!(short.to_string(), "O-O");
    short.castling = Some(Castling::WhiteLong);
    assert_eq!(short.to_string(), "O-O-O");
    short.castling = Some(Castling::BlackLong);
    assert_eq!(short.to_string(), "O-O-O");
}
