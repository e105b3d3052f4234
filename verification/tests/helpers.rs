use chess_core::attack::{first_piece_on_ray, line_attacked, make_piece, step_attacked};
use chess_core::castling::{all_castling, Castling, CastlingRights};
use chess_core::chess_board::{
    castling_after, contains_move, create_empty_board, create_new_board,
    create_starting_board_position,
};
use chess_core::chess_color::ChessColor;
use chess_core::chess_error::ChessError;
use chess_core::chess_move::ChessMove;
use chess_core::chess_square::{ChessSquare, PieceKind};
use chess_core::directions::{
    get_bishop_directions, get_knight_moves, get_pawn_attack_directions, get_queen_directions,
    get_rook_directions,
};
use chess_core::legality::{castle_path_is_safe, king_is_safe_on};
use chess_core::move_gen::{
    castle_path_is_clear, get_potential_moves_along_ray, get_potential_moves_for_directional_piece,
    get_potential_moves_for_king, get_potential_moves_for_knight, get_potential_moves_for_square,
    is_pawn_double_push, potential_pawn_moves,
};
use chess_core::notation::{digit_text, file_text, get_fen_castling_part, number_text};
use chess_core::notation_import::{
    check_target, digit_of, is_numeral, letter_piece, read_castling, read_number, read_placement,
    read_rank, read_side, split_fields, text_chars,
};

fn chars(text: &str) -> Vec<char> {
    text.chars().collect()
}

fn plain(piece: ChessSquare, x: usize, y: usize, to_x: usize, to_y: usize) -> ChessMove {
    ChessMove {
        piece,
        x,
        y,
        to_x,
        to_y,
        capture: None,
        promotion: None,
        castling: None,
        en_passant: false,
    }
}

#[test]
fn direction_tables_hold_their_steps() {
    assert_eq!(get_rook_directions(), vec![(-1, 0), (1, 0), (0, -1), (0, 1)]);
    assert_eq!(get_bishop_directions(), vec![(-1, -1), (-1, 1), (1, 1), (1, -1)]);
    assert_eq!(
        get_queen_directions(),
        vec![(-1, 0), (1, 0), (0, -1), (0, 1), (-1, -1), (-1, 1), (1, 1), (1, -1)]
    );
    assert_eq!(
        get_knight_moves(),
        vec![(-1, 2), (1, 2), (2, 1), (2, -1), (-1, -2), (1, -2), (-2, 1), (-2, -1)]
    );
    assert_eq!(get_pawn_attack_directions(ChessColor::White), vec![(-1, 1), (1, 1)]);
    assert_eq!(get_pawn_attack_directions(ChessColor::Black), vec![(-1, -1), (1, -1)]);
}

#[test]
fn pieces_are_made_of_colour_and_kind() {
    assert_eq!(make_piece(ChessColor::White, PieceKind::Queen), ChessSquare::WhiteQueen);
    assert_eq!(make_piece(ChessColor::Black, PieceKind::Pawn), ChessSquare::BlackPawn);
    assert_eq!(make_piece(ChessColor::Black, PieceKind::King), ChessSquare::BlackKing);
    assert_eq!(make_piece(ChessColor::White, PieceKind::Knight), ChessSquare::WhiteKnight);
}

#[test]
fn the_first_piece_on_a_ray_is_found() {
    let board = create_starting_board_position();
    assert_eq!(first_piece_on_ray(&board, 4, 3, 0, 1), ChessSquare::BlackPawn);
    assert_eq!(first_piece_on_ray(&board, 4, 3, 0, -1), ChessSquare::WhitePawn);
    assert_eq!(first_piece_on_ray(&board, 4, 3, 1, 0), ChessSquare::Empty);
    assert_eq!(first_piece_on_ray(&board, 0, 0, 1, 0), ChessSquare::WhiteKnight);
    assert_eq!(first_piece_on_ray(&board, 0, 0, -1, -1), ChessSquare::Empty);
    assert_eq!(first_piece_on_ray(&board, 0, 2, 1, 1), ChessSquare::BlackPawn);
    assert_eq!(first_piece_on_ray(&board, 0, 2, -1, 1), ChessSquare::Empty);
    assert_eq!(first_piece_on_ray(&board, 0, 2, 1, -1), ChessSquare::WhitePawn);
    let mut lone = create_empty_board();
    lone[7][7] = ChessSquare::BlackQueen;
    assert_eq!(first_piece_on_ray(&lone, 0, 0, 1, 1), ChessSquare::BlackQueen);
}

#[test]
fn line_and_step_attacks_are_told() {
    let mut board = create_empty_board();
    board[4][0] = ChessSquare::BlackRook;
    board[6][5] = ChessSquare::BlackKnight;
    let rooks = get_rook_directions();
    assert!(line_attacked(&board, 6, 4, &rooks, ChessSquare::BlackRook, ChessSquare::BlackQueen));
    assert!(!line_attacked(
        &board,
        6,
        4,
        &rooks,
        ChessSquare::BlackBishop,
        ChessSquare::BlackQueen
    ));
    assert!(!line_attacked(&board, 6, 3, &rooks, ChessSquare::BlackRook, ChessSquare::BlackQueen));
    let jumps = get_knight_moves();
    assert!(step_attacked(&board, 6, 4, &jumps, ChessSquare::BlackKnight));
    assert!(!step_attacked(&board, 6, 5, &jumps, ChessSquare::BlackKnight));
    assert!(!step_attacked(&board, 6, 4, &jumps, ChessSquare::WhiteKnight));
}

#[test]
fn the_kings_way_is_tested_square_by_square() {
    let mut board = create_empty_board();
    board[0][4] = ChessSquare::WhiteKing;
    board[0][7] = ChessSquare::WhiteRook;
    board[0][0] = ChessSquare::WhiteRook;
    board[5][5] = ChessSquare::BlackRook;
    assert!(castle_path_is_clear(&board, Castling::WhiteShort));
    assert!(castle_path_is_clear(&board, Castling::WhiteLong));
    assert!(king_is_safe_on(&board, Castling::WhiteShort, 4));
    assert!(!king_is_safe_on(&board, Castling::WhiteShort, 5));
    assert!(king_is_safe_on(&board, Castling::WhiteShort, 6));
    assert!(!castle_path_is_safe(&board, Castling::WhiteShort));
    assert!(castle_path_is_safe(&board, Castling::WhiteLong));
    board[0][1] = ChessSquare::WhiteKnight;
    assert!(!castle_path_is_clear(&board, Castling::WhiteLong));
    assert!(castle_path_is_clear(&board, Castling::BlackLong));
}

#[test]
fn each_kind_of_piece_has_its_moves() {
    let mut board = create_empty_board();
    board[3][3] = ChessSquare::WhiteRook;
    board[3][6] = ChessSquare::BlackPawn;
    board[5][3] = ChessSquare::WhitePawn;
    let white = ChessColor::White;
    let ray = get_potential_moves_along_ray(&white, &ChessSquare::WhiteRook, 3, 3, 1, 0, &board);
    let targets: Vec<(usize, Option<ChessSquare>)> =
        ray.iter().map(|m| (m.to_x, m.capture)).collect();
    assert_eq!(targets, vec![(4, None), (5, None), (6, Some(ChessSquare::BlackPawn))]);
    let up = get_potential_moves_along_ray(&white, &ChessSquare::WhiteRook, 3, 3, 0, 1, &board);
    assert_eq!(up, vec![plain(ChessSquare::WhiteRook, 3, 3, 3, 4)]);
    let all = get_potential_moves_for_directional_piece(
        &white,
        &ChessSquare::WhiteRook,
        3,
        3,
        &get_rook_directions(),
        &board,
    );
    assert_eq!(all.len(), 3 + 3 + 3 + 1);
    assert_eq!(all[0], plain(ChessSquare::WhiteRook, 3, 3, 2, 3));
    assert_eq!(
        get_potential_moves_for_square(&None, &white, &board, &CastlingRights::none(), 3, 3),
        all
    );
    assert!(get_potential_moves_for_square(&None, &white, &board, &all_castling(), 6, 3)
        .is_empty());
    assert!(get_potential_moves_for_square(&None, &white, &board, &all_castling(), 0, 0)
        .is_empty());

    let mut board = create_empty_board();
    board[0][1] = ChessSquare::WhiteKnight;
    board[1][3] = ChessSquare::WhitePawn;
    board[2][2] = ChessSquare::BlackBishop;
    let knight = get_potential_moves_for_knight(&white, &ChessSquare::WhiteKnight, 1, 0, &board);
    let targets: Vec<(usize, usize, Option<ChessSquare>)> =
        knight.iter().map(|m| (m.to_x, m.to_y, m.capture)).collect();
    assert_eq!(targets, vec![(0, 2, None), (2, 2, Some(ChessSquare::BlackBishop))]);

    let mut board = create_empty_board();
    board[0][4] = ChessSquare::WhiteKing;
    board[0][0] = ChessSquare::WhiteRook;
    board[0][7] = ChessSquare::WhiteRook;
    let king = get_potential_moves_for_king(
        &white,
        &ChessSquare::WhiteKing,
        4,
        0,
        &board,
        &all_castling(),
    );
    assert_eq!(king.len(), 5 + 2);
    assert_eq!(king[5].castling, Some(Castling::WhiteLong));
    assert_eq!((king[5].to_x, king[5].to_y), (2, 0));
    assert_eq!(king[6].castling, Some(Castling::WhiteShort));
    assert_eq!((king[6].to_x, king[6].to_y), (6, 0));
    let mut short_only = CastlingRights::none();
    short_only.insert(Castling::WhiteShort);
    let king = get_potential_moves_for_king(
        &white,
        &ChessSquare::WhiteKing,
        4,
        0,
        &board,
        &short_only,
    );
    assert_eq!(king.len(), 5 + 1);
}

#[test]
fn a_pawn_pushes_captures_and_stops() {
    let mut board = create_empty_board();
    board[1][4] = ChessSquare::WhitePawn;
    board[2][3] = ChessSquare::BlackKnight;
    board[2][5] = ChessSquare::WhiteKnight;
    let moves = potential_pawn_moves(&None, 4, 1, &ChessSquare::WhitePawn, &board);
    let mut capture = plain(ChessSquare::WhitePawn, 4, 1, 3, 2);
    capture.capture = Some(ChessSquare::BlackKnight);
    assert_eq!(
        moves,
        vec![
            plain(ChessSquare::WhitePawn, 4, 1, 4, 2),
            plain(ChessSquare::WhitePawn, 4, 1, 4, 3),
            capture,
        ]
    );
    let mut board = create_empty_board();
    board[7][4] = ChessSquare::WhitePawn;
    assert!(potential_pawn_moves(&None, 4, 7, &ChessSquare::WhitePawn, &board).is_empty());
    board[0][2] = ChessSquare::BlackPawn;
    assert!(potential_pawn_moves(&None, 2, 0, &ChessSquare::BlackPawn, &board).is_empty());
    board[6][0] = ChessSquare::BlackPawn;
    let moves = potential_pawn_moves(&None, 0, 6, &ChessSquare::BlackPawn, &board);
    assert_eq!(
        moves,
        vec![
            plain(ChessSquare::BlackPawn, 0, 6, 0, 5),
            plain(ChessSquare::BlackPawn, 0, 6, 0, 4),
        ]
    );
}

#[test]
fn a_double_push_is_told_from_other_moves() {
    assert!(is_pawn_double_push(&plain(ChessSquare::WhitePawn, 2, 1, 2, 3)));
    assert!(is_pawn_double_push(&plain(ChessSquare::BlackPawn, 7, 6, 7, 4)));
    assert!(!is_pawn_double_push(&plain(ChessSquare::WhitePawn, 2, 1, 2, 2)));
    assert!(!is_pawn_double_push(&plain(ChessSquare::WhitePawn, 2, 6, 2, 4)));
    assert!(!is_pawn_double_push(&plain(ChessSquare::WhiteRook, 2, 1, 2, 3)));
    assert!(!is_pawn_double_push(&plain(ChessSquare::BlackPawn, 7, 6, 6, 4)));
}

#[test]
fn moves_are_found_in_a_list() {
    let moves = create_new_board().get_valid_moves();
    assert!(contains_move(&moves, &plain(ChessSquare::WhitePawn, 0, 1, 0, 3)));
    assert!(!contains_move(&moves, &plain(ChessSquare::WhitePawn, 0, 1, 0, 4)));
    assert!(!contains_move(&Vec::new(), &plain(ChessSquare::WhitePawn, 0, 1, 0, 3)));
}

#[test]
fn a_captured_king_takes_its_rights_along() {
    let mut capture = plain(ChessSquare::WhiteQueen, 4, 3, 4, 7);
    capture.capture = Some(ChessSquare::BlackKing);
    assert_eq!(
        castling_after(&all_castling(), &capture),
        CastlingRights { white_short: true, white_long: true, black_short: false, black_long: false }
    );
    let quiet = plain(ChessSquare::WhiteKnight, 1, 0, 2, 2);
    assert_eq!(castling_after(&all_castling(), &quiet), all_castling());
    let rook_elsewhere = plain(ChessSquare::BlackRook, 0, 5, 0, 4);
    assert_eq!(castling_after(&all_castling(), &rook_elsewhere), all_castling());
}

#[test]
fn a_candidate_is_made_from_two_squares() {
    let board = create_new_board();
    assert_eq!(board.candidate_move(4, 1, 4, 3), Some(plain(ChessSquare::WhitePawn, 4, 1, 4, 3)));
    assert_eq!(board.candidate_move(4, 3, 4, 4), None);
    assert_eq!(board.candidate_move(4, 1, 4, 8), None);
    assert_eq!(board.candidate_move(8, 1, 4, 3), None);
    let mut takes = plain(ChessSquare::WhiteRook, 0, 0, 0, 6);
    takes.capture = Some(ChessSquare::BlackPawn);
    assert_eq!(board.candidate_move(0, 0, 0, 6), Some(takes));
    let mut short = plain(ChessSquare::WhiteKing, 4, 0, 6, 0);
    short.castling = Some(Castling::WhiteShort);
    assert_eq!(board.candidate_move(4, 0, 6, 0), Some(short));
    let mut long = plain(ChessSquare::BlackKing, 4, 7, 2, 7);
    long.castling = Some(Castling::BlackLong);
    assert_eq!(board.candidate_move(4, 7, 2, 7), Some(long));
    let mut passing = plain(ChessSquare::WhitePawn, 4, 1, 3, 2);
    passing.capture = Some(ChessSquare::BlackPawn);
    passing.en_passant = true;
    assert_eq!(board.candidate_move(4, 1, 3, 2), Some(passing));
    let mut promotes = plain(ChessSquare::BlackPawn, 0, 6, 0, 0);
    promotes.capture = Some(ChessSquare::WhiteRook);
    promotes.promotion = Some(ChessSquare::BlackQueen);
    assert_eq!(board.candidate_move(0, 6, 0, 0), Some(promotes));
    for m in board.get_valid_moves() {
        assert_eq!(board.candidate_move(m.x, m.y, m.to_x, m.to_y), Some(m));
    }
}

#[test]
fn an_illegal_candidate_is_refused_by_the_board() {
    let board = create_new_board();
    let chosen = board.candidate_move(4, 0, 6, 0).unwrap();
    assert_eq!(board.do_move(&chosen).err(), Some(ChessError::IllegalMove));
}

#[test]
fn numbers_and_letters_are_written() {
    for d in 0..10u32 {
        assert_eq!(digit_text(d), d.to_string());
    }
    for n in [0u32, 7, 10, 99, 100, 4096, 1_000_000, u32::MAX] {
        assert_eq!(number_text(n), n.to_string());
    }
    let files = ["a", "b", "c", "d", "e", "f", "g", "h"];
    for x in 0..8 {
        assert_eq!(file_text(x), files[x]);
    }
    assert_eq!(get_fen_castling_part(&all_castling()), "KQkq");
    assert_eq!(get_fen_castling_part(&CastlingRights::none()), "-");
    let mut some = CastlingRights::none();
    some.insert(Castling::BlackLong);
    some.insert(Castling::WhiteShort);
    assert_eq!(get_fen_castling_part(&some), "Kq");
}

#[test]
fn a_text_is_cut_into_its_fields() {
    assert_eq!(text_chars("a b"), vec!['a', ' ', 'b']);
    assert_eq!(text_chars(""), Vec::<char>::new());
    assert_eq!(split_fields(&chars("ab cd e"), ' '), vec![chars("ab"), chars("cd"), chars("e")]);
    assert_eq!(split_fields(&chars(""), ' '), vec![chars("")]);
    assert_eq!(split_fields(&chars(" "), ' '), vec![chars(""), chars("")]);
    assert_eq!(split_fields(&chars("a//b/"), '/'), vec![chars("a"), chars(""), chars("b"), chars("")]);
    assert_eq!(split_fields(&chars("abc"), '/'), vec![chars("abc")]);
}

#[test]
fn the_pieces_of_a_notation_are_read() {
    assert_eq!(letter_piece('N'), Some(ChessSquare::WhiteKnight));
    assert_eq!(letter_piece('q'), Some(ChessSquare::BlackQueen));
    assert_eq!(letter_piece('x'), None);
    assert_eq!(letter_piece('1'), None);
    assert_eq!(digit_of('0'), Some(0));
    assert_eq!(digit_of('9'), Some(9));
    assert_eq!(digit_of('a'), None);
    let e = ChessSquare::Empty;
    assert_eq!(
        read_rank(&chars("r3k2R")),
        Some([
            ChessSquare::BlackRook,
            e,
            e,
            e,
            ChessSquare::BlackKing,
            e,
            e,
            ChessSquare::WhiteRook
        ])
    );
    assert_eq!(read_rank(&chars("8")), Some([e; 8]));
    assert_eq!(read_rank(&chars("44")), Some([e; 8]));
    assert_eq!(read_rank(&chars("7")), None);
    assert_eq!(read_rank(&chars("9")), None);
    assert_eq!(read_rank(&chars("0pppppppp")), None);
    assert_eq!(read_rank(&chars("ppppppppp")), None);
    assert_eq!(read_rank(&chars("pppp5")), None);
    assert_eq!(read_rank(&chars("")), None);
    assert_eq!(
        read_placement(&chars("rnbqkbnr/pppppppp/8/8/8/8/PPPPPPPP/RNBQKBNR")),
        Some(create_starting_board_position())
    );
    assert_eq!(read_placement(&chars("8/8/8/8/8/8/8")), None);
    assert_eq!(read_placement(&chars("8/8/8/8/8/8/8/8/8")), None);
    assert_eq!(read_side(&chars("w")), Some(ChessColor::White));
    assert_eq!(read_side(&chars("b")), Some(ChessColor::Black));
    assert_eq!(read_side(&chars("")), None);
    assert_eq!(read_side(&chars("wb")), None);
    assert_eq!(read_side(&chars("B")), None);
    assert_eq!(read_castling(&chars("-")), Some(CastlingRights::none()));
    assert_eq!(read_castling(&chars("KQkq")), Some(all_castling()));
    assert_eq!(read_castling(&chars("qK")).map(|r| (r.white_short, r.black_long)), Some((true, true)));
    assert_eq!(read_castling(&chars("")), None);
    assert_eq!(read_castling(&chars("K-")), None);
    assert_eq!(read_castling(&chars("KA")), None);
    assert!(check_target(&chars("-")));
    assert!(check_target(&chars("e3")));
    assert!(check_target(&chars("h8")));
    assert!(!check_target(&chars("i3")));
    assert!(!check_target(&chars("e9")));
    assert!(!check_target(&chars("e0")));
    assert!(!check_target(&chars("e")));
    assert!(!check_target(&chars("")));
    assert!(!check_target(&chars("e33")));
    assert!(is_numeral(&chars("0")));
    assert!(is_numeral(&chars("0042")));
    assert!(is_numeral(&chars("99999999999999999999999")));
    assert!(!is_numeral(&chars("")));
    assert!(!is_numeral(&chars("4 2")));
    assert!(!is_numeral(&chars("+42")));
    assert_eq!(read_number(&chars("0")), Some(0));
    assert_eq!(read_number(&chars("0042")), Some(42));
    assert_eq!(read_number(&chars("4294967295")), Some(u32::MAX));
    assert_eq!(read_number(&chars("4294967296")), None);
    assert_eq!(read_number(&chars("99999999999999999999999")), None);
    assert_eq!(read_number(&chars("")), None);
    assert_eq!(read_number(&chars("-1")), None);
}
