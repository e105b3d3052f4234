use chess_core::attack::{get_check, is_check, king_in_check};
use chess_core::castling::{Castling, CastlingRights};
use chess_core::chess_board::{
    copy_board, create_empty_board, create_new_board, create_starting_board_position, ChessBoard,
};
use chess_core::chess_color::ChessColor;
use chess_core::chess_error::ChessError;
use chess_core::chess_move::{do_move, simple_move, undo_move, ChessMove};
use chess_core::chess_square::ChessSquare;
use chess_core::legality::get_valid_moves;
use chess_core::move_gen::{create_pawn_moves, get_potential_moves};
use chess_core::notation_import::from_forsyth_edwards_notation;

fn plain(piece: ChessSquare, x: usize, y: usize, to_x: usize, to_y: usize) -> ChessMove {
    ChessMove {
        piece,
        x,
        y,
        to_x,
        to_y,
        capture: None,
        promotion: None,
        castling: None,
        en_passant: false,
    }
}

fn castle(piece: ChessSquare, castling: Castling) -> ChessMove {
    let (to_x, row) = match castling {
        Castling::WhiteShort => (6, 0),
        Castling::WhiteLong => (2, 0),
        Castling::BlackShort => (6, 7),
        Castling::BlackLong => (2, 7),
    };
    ChessMove {
        piece,
        x: 4,
        y: row,
        to_x,
        to_y: row,
        capture: None,
        promotion: None,
        castling: Some(castling),
        en_passant: false,
    }
}

fn read(text: &str) -> ChessBoard {
    from_forsyth_edwards_notation(&String::from(text)).unwrap()
}

fn board_with(pieces: &[(usize, usize, ChessSquare)]) -> [[ChessSquare; 8]; 8] {
    let mut board = create_empty_board();
    for (x, y, piece) in pieces {
        board[*y][*x] = *piece;
    }
    board
}

#[test]
fn starting_position_has_twenty_legal_moves() {
    let board = create_new_board();
    let moves = board.get_valid_moves();
    assert_eq!(moves.len(), 20);
    assert_eq!(moves.iter().filter(|m| m.piece == ChessSquare::WhitePawn).count(), 16);
    assert_eq!(moves.iter().filter(|m| m.piece == ChessSquare::WhiteKnight).count(), 4);
    assert_eq!(moves[0], plain(ChessSquare::WhiteKnight, 1, 0, 0, 2));
}

#[test]
fn black_has_twenty_replies_to_the_kings_pawn() {
    let board = create_new_board();
    let next = board.do_move(&plain(ChessSquare::WhitePawn, 4, 1, 4, 3)).unwrap();
    assert_eq!(next.current_player, ChessColor::Black);
    assert_eq!(next.move_number, 1);
    assert_eq!(next.last_move, Some(plain(ChessSquare::WhitePawn, 4, 1, 4, 3)));
    assert_eq!(next.get_valid_moves().len(), 20);
}

#[test]
fn the_free_function_and_the_method_list_the_same_moves() {
    let board = create_new_board();
    let listed = get_valid_moves(
        &board.last_move,
        &board.current_player,
        &board.squares,
        &board.available_castling,
    );
    assert_eq!(listed, board.get_valid_moves());
}

#[test]
fn a_new_board_is_the_starting_position() {
    let board = create_new_board();
    assert_eq!(board.squares, create_starting_board_position());
    assert_eq!(board.current_player, ChessColor::White);
    assert_eq!(board.move_number, 0);
    assert_eq!(board.last_move, None);
    assert_eq!(board.squares[0][4], ChessSquare::WhiteKing);
    assert_eq!(board.squares[7][3], ChessSquare::BlackQueen);
    assert_eq!(board.squares[1][7], ChessSquare::WhitePawn);
    assert_eq!(board.squares[4][4], ChessSquare::Empty);
    let copy = board.clone();
    assert_eq!(copy.squares, board.squares);
    assert_eq!(copy_board(&board.squares), board.squares);
}

#[test]
fn a_pawn_on_the_seventh_row_has_four_promotions_and_no_plain_move() {
    let board = read("8/4P3/8/8/8/8/8/k6K w - - 0 0");
    let moves: Vec<ChessMove> = board
        .get_valid_moves()
        .into_iter()
        .filter(|m| m.piece == ChessSquare::WhitePawn)
        .collect();
    assert_eq!(moves.len(), 4);
    let promoted: Vec<Option<ChessSquare>> = moves.iter().map(|m| m.promotion).collect();
    assert_eq!(
        promoted,
        vec![
            Some(ChessSquare::WhiteBishop),
            Some(ChessSquare::WhiteKnight),
            Some(ChessSquare::WhiteQueen),
            Some(ChessSquare::WhiteRook),
        ]
    );
    for m in &moves {
        assert_eq!((m.x, m.y, m.to_x, m.to_y), (4, 6, 4, 7));
        assert_eq!(m.capture, None);
    }
    let queened = board.do_move(&moves[2]).unwrap();
    assert_eq!(queened.squares[7][4], ChessSquare::WhiteQueen);
    assert_eq!(queened.squares[6][4], ChessSquare::Empty);
}

#[test]
fn a_capture_onto_the_last_row_promotes_too() {
    let board = read("5n2/4P3/8/8/8/8/8/k6K w - - 0 0");
    let moves: Vec<ChessMove> = board
        .get_valid_moves()
        .into_iter()
        .filter(|m| m.piece == ChessSquare::WhitePawn)
        .collect();
    assert_eq!(moves.len(), 8);
    assert!(moves.iter().all(|m| m.promotion.is_some()));
    let captures: Vec<&ChessMove> = moves.iter().filter(|m| m.to_x == 5).collect();
    assert_eq!(captures.len(), 4);
    assert!(captures.iter().all(|m| m.capture == Some(ChessSquare::BlackKnight)));
}

#[test]
fn a_black_pawn_promotes_on_the_first_row() {
    let board = read("K6k/8/8/8/8/8/7p/8 b - - 0 0");
    let moves: Vec<ChessMove> = board
        .get_valid_moves()
        .into_iter()
        .filter(|m| m.piece == ChessSquare::BlackPawn)
        .collect();
    let promoted: Vec<Option<ChessSquare>> = moves.iter().map(|m| m.promotion).collect();
    assert_eq!(
        promoted,
        vec![
            Some(ChessSquare::BlackBishop),
            Some(ChessSquare::BlackKnight),
            Some(ChessSquare::BlackQueen),
            Some(ChessSquare::BlackRook),
        ]
    );
}

#[test]
fn create_pawn_moves_gives_one_move_or_four() {
    let one = create_pawn_moves(3, 3, 3, 4, &ChessSquare::WhitePawn, None);
    assert_eq!(one, vec![plain(ChessSquare::WhitePawn, 3, 3, 3, 4)]);
    let four = create_pawn_moves(
        3,
        1,
        2,
        0,
        &ChessSquare::BlackPawn,
        Some(ChessSquare::WhiteRook),
    );
    assert_eq!(four.len(), 4);
    assert_eq!(four[0].promotion, Some(ChessSquare::BlackBishop));
    assert_eq!(four[1].promotion, Some(ChessSquare::BlackKnight));
    assert_eq!(four[2].promotion, Some(ChessSquare::BlackQueen));
    assert_eq!(four[3].promotion, Some(ChessSquare::BlackRook));
    assert!(four.iter().all(|m| m.capture == Some(ChessSquare::WhiteRook)));
}

#[test]
fn a_pawn_does_not_jump_over_a_piece() {
    let board = read("4k3/8/8/8/8/4n3/4P3/4K3 w - - 0 0");
    let moves = board.get_valid_moves();
    assert!(moves.iter().all(|m| m.piece != ChessSquare::WhitePawn));
    let board = read("4k3/8/8/8/4n3/8/4P3/4K3 w - - 0 0");
    let pawn: Vec<ChessMove> = board
        .get_valid_moves()
        .into_iter()
        .filter(|m| m.piece == ChessSquare::WhitePawn)
        .collect();
    assert_eq!(pawn, vec![plain(ChessSquare::WhitePawn, 4, 1, 4, 2)]);
}

fn en_passant_position() -> ChessBoard {
    let board = create_new_board();
    let board = board.do_move(&plain(ChessSquare::WhitePawn, 4, 1, 4, 3)).unwrap();
    let board = board.do_move(&plain(ChessSquare::BlackPawn, 0, 6, 0, 5)).unwrap();
    let board = board.do_move(&plain(ChessSquare::WhitePawn, 4, 3, 4, 4)).unwrap();
    board.do_move(&plain(ChessSquare::BlackPawn, 3, 6, 3, 4)).unwrap()
}

fn en_passant_capture() -> ChessMove {
    ChessMove {
        piece: ChessSquare::WhitePawn,
        x: 4,
        y: 4,
        to_x: 3,
        to_y: 5,
        capture: Some(ChessSquare::BlackPawn),
        promotion: None,
        castling: None,
        en_passant: true,
    }
}

#[test]
fn en_passant_is_offered_right_after_the_double_push() {
    let board = en_passant_position();
    let moves = board.get_valid_moves();
    let passing: Vec<&ChessMove> = moves.iter().filter(|m| m.en_passant).collect();
    assert_eq!(passing, vec![&en_passant_capture()]);
    let after = board.do_move(&en_passant_capture()).unwrap();
    assert_eq!(after.squares[5][3], ChessSquare::WhitePawn);
    assert_eq!(after.squares[4][3], ChessSquare::Empty);
    assert_eq!(after.squares[4][4], ChessSquare::Empty);
}

#[test]
fn en_passant_is_not_offered_two_plies_later() {
    let board = en_passant_position();
    let board = board.do_move(&plain(ChessSquare::WhitePawn, 7, 1, 7, 2)).unwrap();
    let board = board.do_move(&plain(ChessSquare::BlackPawn, 7, 6, 7, 5)).unwrap();
    assert_eq!(board.squares[4][3], ChessSquare::BlackPawn);
    assert_eq!(board.squares[4][4], ChessSquare::WhitePawn);
    assert!(board.get_valid_moves().iter().all(|m| !m.en_passant));
    assert_eq!(board.do_move(&en_passant_capture()).err(), Some(ChessError::IllegalMove));
}

#[test]
fn en_passant_is_not_offered_after_a_single_push() {
    let board = create_new_board();
    let board = board.do_move(&plain(ChessSquare::WhitePawn, 4, 1, 4, 3)).unwrap();
    let board = board.do_move(&plain(ChessSquare::BlackPawn, 3, 6, 3, 5)).unwrap();
    let board = board.do_move(&plain(ChessSquare::WhitePawn, 4, 3, 4, 4)).unwrap();
    let board = board.do_move(&plain(ChessSquare::BlackPawn, 3, 5, 3, 4)).unwrap();
    assert!(board.get_valid_moves().iter().all(|m| !m.en_passant));
}

#[test]
fn black_captures_en_passant_too() {
    let board = read("4k3/8/8/8/3p4/8/4P3/4K3 w - - 0 0");
    let board = board.do_move(&plain(ChessSquare::WhitePawn, 4, 1, 4, 3)).unwrap();
    let capture = ChessMove {
        piece: ChessSquare::BlackPawn,
        x: 3,
        y: 3,
        to_x: 4,
        to_y: 2,
        capture: Some(ChessSquare::WhitePawn),
        promotion: None,
        castling: None,
        en_passant: true,
    };
    assert!(board.get_valid_moves().contains(&capture));
    let after = board.do_move(&capture).unwrap();
    assert_eq!(after.squares[2][4], ChessSquare::BlackPawn);
    assert_eq!(after.squares[3][4], ChessSquare::Empty);
    assert_eq!(after.squares[3][3], ChessSquare::Empty);
}

#[test]
fn both_castlings_are_legal_on_a_clear_home_row() {
    let board = read("r3k2r/8/8/8/8/8/8/R3K2R w KQkq - 0 0");
    let moves = board.get_valid_moves();
    assert!(moves.contains(&castle(ChessSquare::WhiteKing, Castling::WhiteShort)));
    assert!(moves.contains(&castle(ChessSquare::WhiteKing, Castling::WhiteLong)));
    let short = board.do_move(&castle(ChessSquare::WhiteKing, Castling::WhiteShort)).unwrap();
    assert_eq!(short.squares[0][6], ChessSquare::WhiteKing);
    assert_eq!(short.squares[0][5], ChessSquare::WhiteRook);
    assert_eq!(short.squares[0][4], ChessSquare::Empty);
    assert_eq!(short.squares[0][7], ChessSquare::Empty);
    assert_eq!(short.squares[0][0], ChessSquare::WhiteRook);
    assert!(!short.available_castling.white_short);
    assert!(!short.available_castling.white_long);
    assert!(short.available_castling.black_short);
    assert!(short.available_castling.black_long);
    let long = short.do_move(&castle(ChessSquare::BlackKing, Castling::BlackLong)).unwrap();
    assert_eq!(long.squares[7][2], ChessSquare::BlackKing);
    assert_eq!(long.squares[7][3], ChessSquare::BlackRook);
    assert_eq!(long.squares[7][0], ChessSquare::Empty);
    assert_eq!(long.squares[7][4], ChessSquare::Empty);
    assert!(long.available_castling.is_empty());
}

#[test]
fn the_king_does_not_castle_out_of_through_or_into_check() {
    let short = castle(ChessSquare::WhiteKing, Castling::WhiteShort);
    let long = castle(ChessSquare::WhiteKing, Castling::WhiteLong);
    // a rook on the f-file looks at the square the king passes over
    let moves = read("4k3/8/8/8/8/5r2/8/R3K2R w KQ - 0 0").get_valid_moves();
    assert!(!moves.contains(&short));
    assert!(moves.contains(&long));
    // a rook on the e-file gives check
    let moves = read("4k3/8/8/8/8/4r3/8/R3K2R w KQ - 0 0").get_valid_moves();
    assert!(!moves.contains(&short));
    assert!(!moves.contains(&long));
    // a rook on the g-file looks at the square the king arrives on
    let moves = read("4k3/8/8/8/8/6r1/8/R3K2R w KQ - 0 0").get_valid_moves();
    assert!(!moves.contains(&short));
    assert!(moves.contains(&long));
    // a rook on the b-file looks at a square that only the rook passes over
    let moves = read("4k3/8/8/8/8/1r6/8/R3K2R w KQ - 0 0").get_valid_moves();
    assert!(moves.contains(&short));
    assert!(moves.contains(&long));
}

#[test]
fn castling_needs_the_right_and_an_empty_path() {
    let short = castle(ChessSquare::WhiteKing, Castling::WhiteShort);
    let long = castle(ChessSquare::WhiteKing, Castling::WhiteLong);
    let moves = read("4k3/8/8/8/8/8/8/R3K2R w Q - 0 0").get_valid_moves();
    assert!(!moves.contains(&short));
    assert!(moves.contains(&long));
    let moves = read("4k3/8/8/8/8/8/8/RN2K1NR w KQ - 0 0").get_valid_moves();
    assert!(!moves.contains(&short));
    assert!(!moves.contains(&long));
    let moves = read("4k3/8/8/8/8/8/8/4K2R w KQ - 0 0").get_valid_moves();
    assert!(moves.contains(&short));
    assert!(!moves.contains(&long));
}

#[test]
fn rights_are_lost_when_king_or_rook_moves_or_a_rook_is_taken() {
    let board = read("r3k2r/8/8/8/8/8/8/R3K2R w KQkq - 0 0");
    let after = board.do_move(&plain(ChessSquare::WhiteKing, 4, 0, 4, 1)).unwrap();
    assert_eq!(
        after.available_castling,
        CastlingRights { white_short: false, white_long: false, black_short: true, black_long: true }
    );
    let after = board.do_move(&plain(ChessSquare::WhiteRook, 7, 0, 7, 3)).unwrap();
    assert_eq!(
        after.available_castling,
        CastlingRights { white_short: false, white_long: true, black_short: true, black_long: true }
    );
    let capture = ChessMove {
        piece: ChessSquare::WhiteRook,
        x: 0,
        y: 0,
        to_x: 0,
        to_y: 7,
        capture: Some(ChessSquare::BlackRook),
        promotion: None,
        castling: None,
        en_passant: false,
    };
    let after = board.do_move(&capture).unwrap();
    assert_eq!(
        after.available_castling,
        CastlingRights { white_short: true, white_long: false, black_short: true, black_long: false }
    );
    // the rook that comes back does not bring the right back
    let after = after.do_move(&plain(ChessSquare::BlackKing, 4, 7, 4, 6)).unwrap();
    let after = after.do_move(&plain(ChessSquare::WhiteRook, 0, 7, 0, 0)).unwrap();
    assert!(!after.available_castling.white_long);
}

#[test]
fn a_pinned_piece_may_not_leave_the_line() {
    let board = read("4r2k/8/8/8/8/8/4N3/4K3 w - - 0 0");
    let moves = board.get_valid_moves();
    assert!(moves.iter().all(|m| m.piece != ChessSquare::WhiteKnight));
    assert_eq!(
        board.do_move(&plain(ChessSquare::WhiteKnight, 4, 1, 2, 2)).err(),
        Some(ChessError::IllegalMove)
    );
}

#[test]
fn a_king_in_check_must_get_out_of_it() {
    let board = read("4r2k/8/8/8/8/8/8/4K3 w - - 0 0");
    let moves = board.get_valid_moves();
    let targets: Vec<(usize, usize)> = moves.iter().map(|m| (m.to_x, m.to_y)).collect();
    assert_eq!(targets, vec![(3, 0), (5, 0), (3, 1), (5, 1)]);
    for m in &moves {
        let after = board.do_move(m).unwrap();
        assert!(!king_in_check(&after.squares, ChessColor::White));
    }
}

#[test]
fn kings_do_not_stand_side_by_side() {
    let board = read("8/8/8/8/8/3k4/8/3K4 w - - 0 0");
    let moves = board.get_valid_moves();
    let targets: Vec<(usize, usize)> = moves.iter().map(|m| (m.to_x, m.to_y)).collect();
    assert_eq!(targets, vec![(2, 0), (4, 0)]);
}

#[test]
fn rook_attacks_along_rows_and_columns_until_blocked() {
    let board = board_with(&[(0, 3, ChessSquare::BlackRook)]);
    assert!(is_check(5, 3, &board, ChessColor::White));
    assert!(is_check(0, 7, &board, ChessColor::White));
    assert!(!is_check(1, 4, &board, ChessColor::White));
    assert!(!is_check(5, 3, &board, ChessColor::Black));
    let board = board_with(&[(0, 3, ChessSquare::BlackRook), (2, 3, ChessSquare::WhitePawn)]);
    assert!(!is_check(5, 3, &board, ChessColor::White));
    assert!(is_check(1, 3, &board, ChessColor::White));
}

#[test]
fn bishop_attacks_along_diagonals_until_blocked() {
    let board = board_with(&[(2, 0, ChessSquare::WhiteBishop)]);
    assert!(is_check(7, 5, &board, ChessColor::Black));
    assert!(is_check(0, 2, &board, ChessColor::Black));
    assert!(!is_check(2, 5, &board, ChessColor::Black));
    assert!(!is_check(7, 5, &board, ChessColor::White));
    let board = board_with(&[(2, 0, ChessSquare::WhiteBishop), (4, 2, ChessSquare::BlackPawn)]);
    assert!(!is_check(7, 5, &board, ChessColor::Black));
}

#[test]
fn queen_attacks_along_rows_columns_and_diagonals() {
    let board = board_with(&[(3, 3, ChessSquare::BlackQueen)]);
    assert!(is_check(3, 7, &board, ChessColor::White));
    assert!(is_check(7, 3, &board, ChessColor::White));
    assert!(is_check(0, 0, &board, ChessColor::White));
    assert!(is_check(6, 0, &board, ChessColor::White));
    assert!(!is_check(4, 5, &board, ChessColor::White));
}

#[test]
fn knight_attacks_a_jump_away_over_pieces() {
    let board = board_with(&[
        (4, 4, ChessSquare::BlackKnight),
        (4, 3, ChessSquare::WhitePawn),
        (5, 3, ChessSquare::WhitePawn),
    ]);
    for (x, y) in [(3, 6), (5, 6), (6, 5), (6, 3), (3, 2), (5, 2), (2, 5), (2, 3)] {
        assert!(is_check(x, y, &board, ChessColor::White), "{} {}", x, y);
    }
    assert!(!is_check(4, 6, &board, ChessColor::White));
    assert!(!is_check(5, 5, &board, ChessColor::White));
}

#[test]
fn pawns_attack_diagonally_forward_only() {
    let board = board_with(&[(4, 4, ChessSquare::BlackPawn)]);
    assert!(is_check(3, 3, &board, ChessColor::White));
    assert!(is_check(5, 3, &board, ChessColor::White));
    assert!(!is_check(4, 3, &board, ChessColor::White));
    assert!(!is_check(3, 5, &board, ChessColor::White));
    let board = board_with(&[(4, 4, ChessSquare::WhitePawn)]);
    assert!(is_check(3, 5, &board, ChessColor::Black));
    assert!(is_check(5, 5, &board, ChessColor::Black));
    assert!(!is_check(4, 5, &board, ChessColor::Black));
    assert!(!is_check(3, 3, &board, ChessColor::Black));
}

#[test]
fn a_king_attacks_the_squares_around_it() {
    let board = board_with(&[(4, 4, ChessSquare::WhiteKing)]);
    for (x, y) in [(3, 3), (4, 3), (5, 3), (3, 4), (5, 4), (3, 5), (4, 5), (5, 5)] {
        assert!(is_check(x, y, &board, ChessColor::Black));
    }
    assert!(!is_check(4, 6, &board, ChessColor::Black));
    assert!(!is_check(4, 4, &board, ChessColor::Black));
}

#[test]
fn nothing_is_attacked_off_the_board_or_on_an_empty_board() {
    let board = board_with(&[(7, 3, ChessSquare::BlackRook)]);
    assert!(!is_check(8, 3, &board, ChessColor::White));
    assert!(!is_check(3, 8, &board, ChessColor::White));
    assert!(!is_check(9, 9, &board, ChessColor::White));
    let empty = create_empty_board();
    for y in 0..8 {
        for x in 0..8 {
            assert!(!is_check(x, y, &empty, ChessColor::White));
            assert!(!is_check(x, y, &empty, ChessColor::Black));
        }
    }
}

#[test]
fn get_check_names_the_first_king_found_attacked() {
    assert_eq!(get_check(&create_starting_board_position()), None);
    let board = board_with(&[
        (4, 0, ChessSquare::WhiteKing),
        (4, 7, ChessSquare::BlackRook),
        (0, 7, ChessSquare::BlackKing),
    ]);
    assert_eq!(get_check(&board), Some(ChessColor::White));
    assert!(king_in_check(&board, ChessColor::White));
    assert!(!king_in_check(&board, ChessColor::Black));
    let board = board_with(&[
        (4, 0, ChessSquare::WhiteKing),
        (0, 0, ChessSquare::WhiteRook),
        (0, 7, ChessSquare::BlackKing),
    ]);
    assert_eq!(get_check(&board), Some(ChessColor::Black));
}

#[test]
fn do_move_refuses_a_move_that_the_board_does_not_bear() {
    let start = create_starting_board_position();
    let mut board = copy_board(&start);
    let wrong_piece = plain(ChessSquare::WhiteQueen, 4, 1, 4, 3);
    assert_eq!(do_move(&wrong_piece, &mut board), Err(ChessError::InconsistentState));
    let no_piece = plain(ChessSquare::Empty, 4, 3, 4, 4);
    assert_eq!(do_move(&no_piece, &mut board), Err(ChessError::InconsistentState));
    let off_board = plain(ChessSquare::WhitePawn, 8, 1, 8, 2);
    assert_eq!(do_move(&off_board, &mut board), Err(ChessError::InconsistentState));
    let to_nowhere = plain(ChessSquare::WhitePawn, 4, 1, 4, 8);
    assert_eq!(do_move(&to_nowhere, &mut board), Err(ChessError::IllegalMove));
    let no_victim = ChessMove {
        piece: ChessSquare::WhitePawn,
        x: 4,
        y: 1,
        to_x: 3,
        to_y: 2,
        capture: Some(ChessSquare::BlackPawn),
        promotion: None,
        castling: None,
        en_passant: true,
    };
    assert_eq!(do_move(&no_victim, &mut board), Err(ChessError::IllegalMove));
    let mut rookless = copy_board(&start);
    rookless[0][7] = ChessSquare::Empty;
    assert_eq!(
        do_move(&castle(ChessSquare::WhiteKing, Castling::WhiteShort), &mut rookless),
        Err(ChessError::IllegalMove)
    );
    assert_eq!(board, start);
}

#[test]
fn undo_move_refuses_a_move_that_was_not_made() {
    let start = create_starting_board_position();
    let mut board = copy_board(&start);
    assert_eq!(
        undo_move(&plain(ChessSquare::WhitePawn, 4, 1, 4, 3), &mut board),
        Err(ChessError::InconsistentState)
    );
    assert_eq!(
        undo_move(&castle(ChessSquare::WhiteKing, Castling::WhiteShort), &mut board),
        Err(ChessError::InconsistentState)
    );
    let mut bare = en_passant_capture();
    bare.capture = None;
    let mut passed = board_with(&[(3, 5, ChessSquare::WhitePawn)]);
    assert_eq!(undo_move(&bare, &mut passed), Err(ChessError::IllegalMove));
    assert_eq!(board, start);
}

#[test]
fn simple_move_captures_and_promotes_nothing() {
    assert_eq!(
        simple_move(&ChessSquare::BlackKnight, 1, 7, 2, 5),
        plain(ChessSquare::BlackKnight, 1, 7, 2, 5)
    );
}

fn check_every_move_is_undone(board: &ChessBoard) {
    let moves = board.get_valid_moves();
    assert!(!moves.is_empty());
    for m in &moves {
        let mut squares = copy_board(&board.squares);
        assert_eq!(do_move(m, &mut squares), Ok(()));
        assert_ne!(squares, board.squares);
        assert_eq!(undo_move(m, &mut squares), Ok(()));
        assert_eq!(squares, board.squares);
        let next = board.do_move(m).unwrap();
        assert_eq!(next.move_number, board.move_number + 1);
        assert_eq!(next.current_player, board.current_player.get_opposite());
        assert_eq!(next.last_move, Some(*m));
        let back = next.undo_move(m, board.last_move, board.available_castling).unwrap();
        assert_eq!(back.squares, board.squares);
        assert_eq!(back.current_player, board.current_player);
        assert_eq!(back.available_castling, board.available_castling);
        assert_eq!(back.last_move, board.last_move);
        assert_eq!(back.move_number, board.move_number);
    }
}

#[test]
fn undoing_a_legal_move_gives_the_position_back() {
    check_every_move_is_undone(&create_new_board());
    check_every_move_is_undone(&en_passant_position());
    check_every_move_is_undone(&read("r3k2r/8/8/8/8/8/8/R3K2R w KQkq - 0 5"));
    check_every_move_is_undone(&read("r3k2r/8/8/8/8/8/8/R3K2R b KQkq - 0 5"));
    check_every_move_is_undone(&read("5n2/4P3/8/8/8/8/7p/k5NK w - - 0 9"));
    check_every_move_is_undone(&read("5n2/4P3/8/8/8/8/7p/k5NK b - - 0 9"));
}

#[test]
fn nothing_is_undone_before_the_first_move() {
    let board = create_new_board();
    let m = plain(ChessSquare::WhitePawn, 4, 1, 4, 3);
    assert_eq!(
        board.undo_move(&m, None, board.available_castling).err(),
        Some(ChessError::InconsistentState)
    );
}

#[test]
fn a_move_outside_the_legal_list_is_refused() {
    let board = create_new_board();
    let three_squares = plain(ChessSquare::WhitePawn, 4, 1, 4, 4);
    assert_eq!(board.do_move(&three_squares).err(), Some(ChessError::IllegalMove));
    let blacks = plain(ChessSquare::BlackPawn, 4, 6, 4, 4);
    assert_eq!(board.do_move(&blacks).err(), Some(ChessError::IllegalMove));
    let mut claims_capture = plain(ChessSquare::WhitePawn, 4, 1, 4, 3);
    claims_capture.capture = Some(ChessSquare::BlackPawn);
    assert_eq!(board.do_move(&claims_capture).err(), Some(ChessError::IllegalMove));
}

#[test]
fn the_generator_lists_moves_that_leave_the_king_in_check() {
    let board = read("4r2k/8/8/8/8/8/4N3/4K3 w - - 0 0");
    let potential = get_potential_moves(
        &board.last_move,
        &board.current_player,
        &board.squares,
        &board.available_castling,
    );
    let legal = board.get_valid_moves();
    assert!(potential.iter().any(|m| m.piece == ChessSquare::WhiteKnight));
    assert!(potential.len() > legal.len());
    assert!(legal.iter().all(|m| potential.contains(m)));
}

#[test]
fn pieces_capture_the_enemy_and_stop_at_their_own() {
    let board = read("4k3/8/8/8/1p1R1P2/8/8/4K3 w - - 0 0");
    let rook: Vec<ChessMove> = board
        .get_valid_moves()
        .into_iter()
        .filter(|m| m.piece == ChessSquare::WhiteRook)
        .collect();
    let along_row: Vec<(usize, Option<ChessSquare>)> =
        rook.iter().filter(|m| m.to_y == 3).map(|m| (m.to_x, m.capture)).collect();
    assert_eq!(
        along_row,
        vec![(2, None), (1, Some(ChessSquare::BlackPawn)), (4, None)]
    );
    assert_eq!(rook.len(), 3 + 7);
}

#[test]
fn a_refused_move_needs_no_room_in_the_move_counter() {
    let mut board = create_new_board();
    board.move_number = u32::MAX;
    let three_squares = plain(ChessSquare::WhitePawn, 4, 1, 4, 4);
    assert_eq!(board.do_move(&three_squares).err(), Some(ChessError::IllegalMove));
    assert_eq!(board.move_number, u32::MAX);
    assert_eq!(board.squares, create_starting_board_position());
}

#[test]
fn a_move_leaves_the_position_it_was_made_in_as_it_was() {
    let board = create_new_board();
    let before = board;
    let next = board.do_move(&plain(ChessSquare::WhitePawn, 4, 1, 4, 3)).unwrap();
    assert_eq!(board, before);
    assert_ne!(next, before);
}

#[test]
fn both_neighbours_may_capture_en_passant() {
    let board = read("4k3/3p4/8/2P1P3/8/8/8/4K3 b - - 0 0");
    let board = board.do_move(&plain(ChessSquare::BlackPawn, 3, 6, 3, 4)).unwrap();
    let passing: Vec<(usize, usize, usize, usize, Option<ChessSquare>)> = board
        .get_valid_moves()
        .into_iter()
        .filter(|m| m.en_passant)
        .map(|m| (m.x, m.y, m.to_x, m.to_y, m.capture))
        .collect();
    assert_eq!(
        passing,
        vec![
            (2, 4, 3, 5, Some(ChessSquare::BlackPawn)),
            (4, 4, 3, 5, Some(ChessSquare::BlackPawn)),
        ]
    );
}
