use std::collections::HashMap;

use chess_lib::{Color, Game, GameState, Piece, PieceType, WinState};

#[test]
fn piece_getter_test() {
    let game = Game::new_starting_pos();

    let piece = game.piece_at_array_index((0, 0));
    let top_left_piece = Piece::new(PieceType::Rook, Color::Black);

    assert_eq!(piece, Ok(Some(top_left_piece)));
}

#[test]
fn possible_moves_test() {
    let mut board = Game::new_starting_pos();

    let x: HashMap<(usize, usize), Vec<(usize, usize)>> =
        board.get_all_legal_moves(Color::White).into_iter().collect();

    let mut expected_map = HashMap::new();
    expected_map.insert((6, 6), vec![(5, 6), (4, 6)]);
    expected_map.insert((7, 2), vec![]);
    expected_map.insert((6, 4), vec![(5, 4), (4, 4)]);
    expected_map.insert((6, 2), vec![(5, 2), (4, 2)]);
    expected_map.insert((7, 0), vec![]);
    expected_map.insert((7, 4), vec![]);
    expected_map.insert((7, 5), vec![]);
    expected_map.insert((7, 3), vec![]);
    expected_map.insert((6, 7), vec![(5, 7), (4, 7)]);
    expected_map.insert((6, 1), vec![(5, 1), (4, 1)]);
    expected_map.insert((7, 1), vec![(5, 2), (5, 0)]);
    expected_map.insert((6, 3), vec![(5, 3), (4, 3)]);
    expected_map.insert((6, 0), vec![(5, 0), (4, 0)]);
    expected_map.insert((6, 5), vec![(5, 5), (4, 5)]);
    expected_map.insert((7, 6), vec![(5, 7), (5, 5)]);
    expected_map.insert((7, 7), vec![]);

    assert_eq!(x, expected_map);
}

#[test]
fn legal_moves_square_test() {
    let mut game = Game::new_starting_pos();

    let expected_val: Vec<(usize, usize)> = Vec::from([(5, 2), (5, 0)]);

    assert_eq!(expected_val, game.get_legal_moves_alg_notation("b1").ok().unwrap());
}

#[test]
fn move_test() {
    let mut board = Game::new_starting_pos();

    let valid_move = board.make_move("e2", "e4", false);
    let invalid_move = board.make_move("f2", "f5", false);
    let invalid_move2 = board.make_move("f4", "f5", false);
    let invalid_input = board.make_move("aksmldkams", "pok\u{f6}akenjf", false);
    let empty_input = board.make_move("", "", false);

    assert_eq!(valid_move, Ok(true));
    assert_eq!(invalid_move, Ok(false));
    assert_eq!(invalid_move2, Ok(false));
    assert_eq!(invalid_input.is_err(), true);
    assert_eq!(empty_input.is_err(), true);
}

#[test]
fn castling_test() {
    let mut board =
        Game::from_fen("r1bqkbnr/pppppppp/8/8/8/6n1/PPPPPPP1/RNBQK2R b KQkq - 0 1").unwrap();

    board.make_move("g3", "e4", true).unwrap();

    println!("{:?}", board);
    println!("{:?}", board.get_legal_moves_alg_notation("e1").unwrap());
}

#[test]
fn undo_move_test() {
    let mut board = Game::new_starting_pos();

    board.make_move("e2", "e4", false).unwrap();

    board.undo_last_move();

    assert_eq!(board.to_fen(), "rnbqkbnr/pppppppp/8/8/8/8/PPPPPPPP/RNBQKBNR w KQkq - 0 1")
}

#[test]
fn promotion_test() {
    let mut board = Game::from_fen("8/1P6/8/8/8/8/1p6/8 w - - 0 1").unwrap();

    board.make_move("b7", "b8", false).unwrap();

    if board.get_state() == GameState::AwaitPromotion {
        board.promote_to_piece(PieceType::Queen);
    }

    assert_eq!(
        board.piece_at_alg_notation("b8").ok().unwrap(),
        Some(Piece::new(PieceType::Queen, Color::White))
    )
}

#[test]
fn board_from_fen_test() {
    let board = Game::from_fen("k1Q2b2/pp6/1qp2p2/3P3p/2p2B1P/2P5/PP4r1/1K1R4 b - - 1 34").unwrap();

    assert_eq!(board.to_fen(), "k1Q2b2/pp6/1qp2p2/3P3p/2p2B1P/2P5/PP4r1/1K1R4 b - - 1 34");
}

#[test]
fn board_to_fen_test() {
    let board = Game::new_starting_pos();

    assert_eq!(board.to_fen(), "rnbqkbnr/pppppppp/8/8/8/8/PPPPPPPP/RNBQKBNR w KQkq - 0 1")
}

#[test]
fn real_game_test() {
    let mut board = Game::new_starting_pos();

    let moves = vec![
        ("f2", "f4"),
        ("d7", "d5"),
        ("g1", "f3"),
        ("g7", "g6"),
        ("d2", "d3"),
        ("f8", "g7"),
        ("e2", "e4"),
        ("c7", "c6"),
        ("e4", "e5"),
        ("g8", "h6"),
        ("d3", "d4"),
        ("c8", "g4"),
        ("h2", "h3"),
        ("g4", "f3"),
        ("d1", "f3"),
        ("h6", "f5"),
        ("c2", "c3"),
        ("e7", "e6"),
        ("g2", "g4"),
        ("f5", "h4"),
        ("f3", "f2"),
        ("h7", "h5"),
        ("c1", "e3"),
        ("b8", "d7"),
        ("b1", "d2"),
        ("g7", "f8"),
        ("e1", "c1"),
        ("f8", "e7"),
        ("f1", "d3"),
        ("d8", "a5"),
        ("c1", "b1"),
        ("e8", "c8"),
        ("f4", "f5"),
        ("g6", "f5"),
        ("g4", "f5"),
        ("e6", "f5"),
        ("d3", "f5"),
        ("h4", "f5"),
        ("f2", "f5"),
        ("d8", "f8"),
        ("h1", "g1"),
        ("a5", "d8"),
        ("g1", "g7"),
        ("f7", "f6"),
        ("e5", "e6"),
        ("d7", "b6"),
        ("e3", "f4"),
        ("f8", "g8"),
        ("g7", "f7"),
        ("g8", "g2"),
        ("h3", "h4"),
        ("b6", "c4"),
        ("d2", "c4"),
        ("d5", "c4"),
        ("d4", "d5"),
        ("d8", "b6"),
        ("f4", "c1"),
        ("e7", "a3"),
        ("f7", "f8"),
        ("h8", "f8"),
        ("e6", "e7"),
        ("c8", "b8"),
        ("c1", "f4"),
        ("b8", "a8"),
        ("e7", "f8"),
        ("a3", "f8"),
        ("f5", "c8"),
    ];

    for (from, to) in moves {
        board.make_move(from, to, true).unwrap();
    }

    assert_eq!(board.get_state(), GameState::Win(WinState::Checkmate(Color::White)));
}
