use chess_core::chess_board::{create_new_board, ChessBoard};
use chess_core::chess_color::ChessColor;
use chess_core::chess_error::ChessError;
use chess_core::chess_move::ChessMove;
use chess_core::chess_scoring::{get_piece_value, score_game_state};
use chess_core::chess_square::ChessSquare;
use chess_core::minimax::{BLACK_WIN_SCORE, WHITE_WIN_SCORE};
use chess_core::multi_thought_node::{chunk_length, search_moves, split_moves, MultiThoughtNode};
use chess_core::notation_import::from_forsyth_edwards_notation;
use chess_core::random_move::{move_at, pick_random_move};
use chess_core::thought_node::ThoughtNode;
use chess_core::attack::king_in_check;
use rand::rngs::StdRng;
use rand::SeedableRng;

fn read(text: &str) -> ChessBoard {
    from_forsyth_edwards_notation(&String::from(text)).unwrap()
}

fn plain(piece: ChessSquare, x: usize, y: usize, to_x: usize, to_y: usize) -> ChessMove {
    ChessMove {
        piece,
        x,
        y,
        to_x,
        to_y,
        capture: None,
        promotion: None,
        castling: None,
        en_passant: false,
    }
}

/// Full minimax without pruning, written out for comparison.
fn full_minimax(board: &ChessBoard, depth: i32) -> i64 {
    if depth <= 0 {
        return score_game_state(board);
    }
    let moves = board.get_valid_moves();
    if moves.is_empty() {
        if !king_in_check(&board.squares, board.current_player) {
            return 0;
        }
        return match board.current_player {
            ChessColor::White => BLACK_WIN_SCORE,
            ChessColor::Black => WHITE_WIN_SCORE,
        };
    }
    let values = moves.iter().map(|m| full_minimax(&board.do_move(m).unwrap(), depth - 1));
    match board.current_player {
        ChessColor::White => values.max().unwrap(),
        ChessColor::Black => values.min().unwrap(),
    }
}

/// The first move with the best full-minimax value.
fn full_minimax_move(board: &ChessBoard, depth: i32) -> ChessMove {
    let moves = board.get_valid_moves();
    let mut best = 0;
    let mut best_value = full_minimax(&board.do_move(&moves[0]).unwrap(), depth - 1);
    for i in 1..moves.len() {
        let value = full_minimax(&board.do_move(&moves[i]).unwrap(), depth - 1);
        let better = match board.current_player {
            ChessColor::White => value > best_value,
            ChessColor::Black => value < best_value,
        };
        if better {
            best = i;
            best_value = value;
        }
    }
    moves[best]
}

#[test]
fn pieces_have_their_worth() {
    assert_eq!(get_piece_value(&ChessSquare::Empty), 0);
    assert_eq!(get_piece_value(&ChessSquare::WhitePawn), 1);
    assert_eq!(get_piece_value(&ChessSquare::WhiteKnight), 3);
    assert_eq!(get_piece_value(&ChessSquare::WhiteBishop), 3);
    assert_eq!(get_piece_value(&ChessSquare::WhiteRook), 5);
    assert_eq!(get_piece_value(&ChessSquare::WhiteQueen), 9);
    assert_eq!(get_piece_value(&ChessSquare::WhiteKing), 1000);
    assert_eq!(get_piece_value(&ChessSquare::BlackPawn), -1);
    assert_eq!(get_piece_value(&ChessSquare::BlackKnight), -3);
    assert_eq!(get_piece_value(&ChessSquare::BlackBishop), -3);
    assert_eq!(get_piece_value(&ChessSquare::BlackRook), -5);
    assert_eq!(get_piece_value(&ChessSquare::BlackQueen), -9);
    assert_eq!(get_piece_value(&ChessSquare::BlackKing), -1000);
}

#[test]
fn the_score_is_material_and_mobility_in_hundredths() {
    let board = create_new_board();
    assert_eq!(score_game_state(&board), 5 * 20);
    let next = board.do_move(&plain(ChessSquare::WhitePawn, 4, 1, 4, 3)).unwrap();
    assert_eq!(score_game_state(&next), -5 * 20);
    // White: king and queen; Black: king and rook. White's queen has 21 moves
    // and its king 3.
    let board = read("k6r/8/8/8/8/8/8/KQ6 w - - 0 0");
    let moves = board.get_valid_moves().len() as i64;
    assert_eq!(score_game_state(&board), 100 * (9 - 5) + 5 * moves);
    let board = read("k6r/8/8/8/8/8/8/KQ6 b - - 0 0");
    let moves = board.get_valid_moves().len() as i64;
    assert_eq!(score_game_state(&board), 100 * (9 - 5) - 5 * moves);
}

#[test]
fn depth_zero_scores_the_position_itself() {
    let board = create_new_board();
    let mut node = ThoughtNode::new(board);
    assert_eq!(node.alphabeta(0), 100);
    assert_eq!(node.calculated_score, 100);
    assert!(node.children.is_empty());
    assert_eq!(node.get_best_move().err(), Some(ChessError::SearchNotReady));
    assert_eq!(node.alphabeta(-3), 100);
}

#[test]
fn a_node_that_was_not_searched_has_no_best_move() {
    let node = ThoughtNode {
        game_state: create_new_board(),
        children: Vec::new(),
        calculated_score: 0,
    };
    assert_eq!(node.get_best_move(), Err(ChessError::SearchNotReady));
}

#[test]
fn checkmate_and_stalemate_are_told_apart() {
    let mated = read("R5k1/5ppp/8/8/8/8/8/7K b - - 0 0");
    let mut node = ThoughtNode::new(mated);
    assert_eq!(node.alphabeta(2), WHITE_WIN_SCORE);
    assert_eq!(node.calculated_score, WHITE_WIN_SCORE);
    let mated = read("k7/8/8/8/8/8/PPP5/1K5r w - - 0 0");
    let mut node = ThoughtNode::new(mated);
    assert_eq!(node.alphabeta(1), BLACK_WIN_SCORE);
    assert_eq!(node.calculated_score, BLACK_WIN_SCORE);
    assert!(node.children.is_empty());
    let stale = read("7k/5Q2/6K1/8/8/8/8/8 b - - 0 0");
    assert!(stale.get_valid_moves().is_empty());
    let mut node = ThoughtNode::new(stale);
    node.calculated_score = 77;
    assert_eq!(node.alphabeta(3), 0);
    assert_eq!(node.calculated_score, 0);
    assert!(node.children.is_empty());
    assert_eq!(node.get_best_move(), Err(ChessError::SearchNotReady));
}

#[test]
fn the_search_finds_mate_in_one() {
    let board = read("6k1/5ppp/8/8/8/8/8/R6K w - - 0 0");
    let mut node = ThoughtNode::new(board);
    assert_eq!(node.alphabeta(2), WHITE_WIN_SCORE);
    assert_eq!(node.get_best_move(), Ok(plain(ChessSquare::WhiteRook, 0, 0, 0, 7)));
    let mating = node
        .children
        .iter()
        .find(|child| child.game_state.last_move == Some(plain(ChessSquare::WhiteRook, 0, 0, 0, 7)))
        .unwrap();
    assert_eq!(mating.calculated_score, WHITE_WIN_SCORE);
    assert!(mating.children.is_empty());
    let board = read("r6k/8/8/8/8/8/5PPP/6K1 b - - 0 0");
    let mut node = ThoughtNode::new(board);
    assert_eq!(node.alphabeta(2), BLACK_WIN_SCORE);
    assert_eq!(node.get_best_move(), Ok(plain(ChessSquare::BlackRook, 0, 7, 0, 0)));
}

fn check_pruned_search_agrees(text: &str, depth: i32) {
    let board = read(text);
    let mut node = ThoughtNode::new(board);
    let value = node.alphabeta(depth);
    assert_eq!(value, full_minimax(&board, depth), "{} at depth {}", text, depth);
    assert_eq!(node.calculated_score, value);
    assert_eq!(node.children.len(), board.get_valid_moves().len());
    assert_eq!(
        node.get_best_move(),
        Ok(full_minimax_move(&board, depth)),
        "{} at depth {}",
        text,
        depth
    );
}

#[test]
fn pruned_search_picks_the_move_of_full_minimax() {
    let positions = [
        "rnbqkbnr/pppppppp/8/8/8/8/PPPPPPPP/RNBQKBNR w KQkq - 0 0",
        "rnbqkbnr/pppp1ppp/8/4p3/4P3/8/PPPP1PPP/RNBQKBNR w KQkq - 0 2",
        "r3k2r/8/8/8/8/8/8/R3K2R b KQkq - 0 5",
        "4k3/8/8/3q4/8/8/4N3/4K3 w - - 0 0",
        "5n2/4P3/8/8/8/8/7p/k5NK b - - 0 9",
    ];
    for text in positions {
        check_pruned_search_agrees(text, 1);
        check_pruned_search_agrees(text, 2);
    }
    check_pruned_search_agrees("4k3/8/8/3q4/8/8/4N3/4K3 w - - 0 0", 3);
    check_pruned_search_agrees("5n2/4P3/8/8/8/8/7p/k5NK w - - 0 9", 3);
}

#[test]
fn a_searched_tree_can_be_searched_again() {
    let board = read("4k3/8/8/3q4/8/8/4N3/4K3 w - - 0 0");
    let mut node = ThoughtNode::new(board);
    let shallow = node.alphabeta(1);
    assert_eq!(shallow, full_minimax(&board, 1));
    let deep = node.alphabeta(3);
    assert_eq!(deep, full_minimax(&board, 3));
    assert_eq!(node.get_best_move(), Ok(full_minimax_move(&board, 3)));
    let moves = board.get_valid_moves();
    for i in 0..moves.len() {
        assert_eq!(node.children[i].game_state.last_move, Some(moves[i]));
    }
}

#[test]
fn the_first_of_equal_children_is_picked() {
    let board = create_new_board();
    let moves = board.get_valid_moves();
    let mut node = ThoughtNode::new(board);
    for m in &moves {
        node.children.push(ThoughtNode::new(board.do_move(m).unwrap()));
    }
    assert_eq!(node.best_child_index(), 0);
    assert_eq!(node.get_best_move(), Ok(moves[0]));
    node.children[7].calculated_score = 3;
    node.children[9].calculated_score = 3;
    node.children[2].calculated_score = -4;
    assert_eq!(node.best_child_index(), 7);
    assert_eq!(node.get_best_move(), Ok(moves[7]));
    node.game_state.current_player = ChessColor::Black;
    assert_eq!(node.best_child_index(), 2);
}

#[test]
fn moves_are_cut_into_chunks_of_nearly_equal_length() {
    assert_eq!(chunk_length(20, 4), 5);
    assert_eq!(chunk_length(20, 3), 7);
    assert_eq!(chunk_length(3, 8), 1);
    assert_eq!(chunk_length(0, 8), 1);
    assert_eq!(chunk_length(20, 1), 20);
    assert_eq!(chunk_length(20, 0), 20);
    let moves = create_new_board().get_valid_moves();
    let lengths = |workers: usize| -> Vec<usize> {
        split_moves(&moves, workers).iter().map(|c| c.len()).collect()
    };
    assert_eq!(lengths(4), vec![5, 5, 5, 5]);
    assert_eq!(lengths(3), vec![7, 7, 6]);
    assert_eq!(lengths(8), vec![3, 3, 3, 3, 3, 3, 2]);
    assert_eq!(lengths(32), vec![1; 20]);
    assert_eq!(lengths(1), vec![20]);
    assert_eq!(lengths(0), vec![20]);
    for workers in 0..25 {
        let chunks = split_moves(&moves, workers);
        assert!(chunks.len() <= workers.max(1));
        assert_eq!(chunks.concat(), moves);
    }
    assert!(split_moves(&Vec::new(), 4).is_empty());
}

#[test]
fn shared_out_search_gives_each_child_its_full_value() {
    let board = read("4k3/8/8/3q4/8/8/4N3/4K3 w - - 0 0");
    let moves = board.get_valid_moves();
    for threads in [1, 2, 3, 16] {
        let mut multi = MultiThoughtNode {
            game_state: board,
            children: Vec::new(),
            calculated_score: 0,
            thought_threads: threads,
        };
        let root = multi.alphabeta(2);
        assert_eq!(root.children.len(), moves.len());
        for i in 0..moves.len() {
            let child = board.do_move(&moves[i]).unwrap();
            assert_eq!(root.children[i].game_state.last_move, Some(moves[i]));
            assert_eq!(root.children[i].calculated_score, full_minimax(&child, 2));
        }
        assert_eq!(root.get_best_move(), Ok(full_minimax_move(&board, 3)));
    }
}

#[test]
fn a_chunk_is_searched_move_by_move() {
    let board = create_new_board();
    let moves = board.get_valid_moves();
    let chunk = vec![moves[3], moves[11]];
    let nodes = search_moves(&board, &chunk, 1);
    assert_eq!(nodes.len(), 2);
    for i in 0..2 {
        let child = board.do_move(&chunk[i]).unwrap();
        assert_eq!(nodes[i].game_state.squares, child.squares);
        assert_eq!(nodes[i].calculated_score, full_minimax(&child, 1));
    }
}

#[test]
fn a_random_move_is_a_legal_move() {
    let board = create_new_board();
    let moves = board.get_valid_moves();
    let mut rng = StdRng::seed_from_u64(7);
    let mut seen = Vec::new();
    for _ in 0..200 {
        let picked = pick_random_move(&board, &mut rng).unwrap();
        assert!(moves.contains(&picked));
        if !seen.contains(&picked) {
            seen.push(picked);
        }
    }
    assert!(seen.len() > 1);
    let stale = read("7k/5Q2/6K1/8/8/8/8/8 b - - 0 0");
    assert_eq!(pick_random_move(&stale, &mut rng), None);
}

#[test]
fn move_at_gives_the_move_at_a_place() {
    let moves = create_new_board().get_valid_moves();
    assert_eq!(move_at(&moves, 0), Some(moves[0]));
    assert_eq!(move_at(&moves, 19), Some(moves[19]));
    assert_eq!(move_at(&moves, 20), None);
}

/// The pruned search without a tree, written out for comparison: returns
/// the value, and the scores that the children are given, `None` for a
/// child whose turn never comes.
fn pruned_search(board: &ChessBoard, depth: i32, alpha: i64, beta: i64) -> (i64, Vec<Option<i64>>) {
    if depth <= 0 {
        return (score_game_state(board), Vec::new());
    }
    let moves = board.get_valid_moves();
    if moves.is_empty() {
        return (full_minimax(board, depth), Vec::new());
    }
    let white = board.current_player == ChessColor::White;
    let (mut alpha, mut beta) = (alpha, beta);
    let mut score = if white { BLACK_WIN_SCORE } else { WHITE_WIN_SCORE };
    let mut given = vec![None; moves.len()];
    for i in 0..moves.len() {
        let (r, _) = pruned_search(&board.do_move(&moves[i]).unwrap(), depth - 1, alpha, beta);
        given[i] = Some(r);
        if white {
            score = score.max(r);
            alpha = alpha.max(score);
        } else {
            score = score.min(r);
            beta = beta.min(score);
        }
        if alpha > beta {
            break;
        }
    }
    (score, given)
}

fn check_children_carry_the_pruned_scores(node: &ThoughtNode, depth: i32, alpha: i64, beta: i64) {
    let (value, given) = pruned_search(&node.game_state, depth, alpha, beta);
    assert_eq!(node.calculated_score, value);
    assert_eq!(node.children.len(), given.len());
    let (mut alpha, mut beta) = (alpha, beta);
    let white = node.game_state.current_player == ChessColor::White;
    for i in 0..given.len() {
        match given[i] {
            Some(r) => {
                assert_eq!(node.children[i].calculated_score, r);
                check_children_carry_the_pruned_scores(&node.children[i], depth - 1, alpha, beta);
                if white {
                    alpha = alpha.max(r);
                } else {
                    beta = beta.min(r);
                }
            }
            None => {
                assert_eq!(node.children[i].calculated_score, 0);
                assert!(node.children[i].children.is_empty());
            }
        }
    }
}

#[test]
fn every_node_carries_the_score_of_the_pruned_search() {
    let positions = [
        "rnbqkbnr/pppppppp/8/8/8/8/PPPPPPPP/RNBQKBNR w KQkq - 0 0",
        "r3k2r/8/8/8/8/8/8/R3K2R b KQkq - 0 5",
        "4k3/8/8/3q4/8/8/4N3/4K3 w - - 0 0",
        "6k1/5ppp/8/8/8/8/8/R6K w - - 0 0",
    ];
    for text in positions {
        for depth in 1..=3 {
            let mut node = ThoughtNode::new(read(text));
            node.alphabeta(depth);
            check_children_carry_the_pruned_scores(&node, depth, BLACK_WIN_SCORE, WHITE_WIN_SCORE);
        }
    }
}
