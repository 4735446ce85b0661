use chess_lib::{
    alg_notation_to_indx, indx_to_alg_notation, Color, DrawState, Game, GameState, Piece,
    PieceType, WinState,
};

fn total_moves(game: &mut Game, color: Color) -> usize {
    game.get_all_legal_moves(color).iter().map(|(_, v)| v.len()).sum()
}

fn play(game: &mut Game, moves: &[(&str, &str)]) {
    for (from, to) in moves {
        assert_eq!(game.make_move(from, to, true), Ok(true), "{}{}", from, to);
    }
}

#[test]
fn start_position_has_twenty_white_moves() {
    let mut game = Game::new_starting_pos();
    let all = game.get_all_legal_moves(Color::White);
    assert_eq!(all.len(), 16);
    let pawn_moves: usize = all.iter().filter(|(sq, _)| sq.0 == 6).map(|(_, v)| v.len()).sum();
    let knight_moves: usize = all.iter().filter(|(sq, _)| sq.0 == 7).map(|(_, v)| v.len()).sum();
    assert_eq!(pawn_moves, 16);
    assert_eq!(knight_moves, 4);
    assert_eq!(total_moves(&mut game, Color::White), 20);
}

#[test]
fn side_not_to_move_has_no_moves() {
    let mut game = Game::new_starting_pos();
    let black = game.get_all_legal_moves(Color::Black);
    assert_eq!(black.len(), 16);
    assert_eq!(total_moves(&mut game, Color::Black), 0);
    game.make_move("e2", "e4", true).unwrap();
    assert_eq!(total_moves(&mut game, Color::White), 0);
    assert_eq!(total_moves(&mut game, Color::Black), 20);
}

#[test]
fn fools_mate_is_checkmate() {
    let mut game = Game::new_starting_pos();
    play(&mut game, &[("f2", "f4"), ("e7", "e5"), ("g2", "g4"), ("d8", "h4")]);
    assert!(game.in_check(Color::White));
    assert_eq!(total_moves(&mut game, Color::White), 0);
    assert_eq!(game.get_state(), GameState::Win(WinState::Checkmate(Color::Black)));
}

#[test]
fn queen_to_h4_after_g3_is_blocked() {
    let mut game = Game::new_starting_pos();
    play(&mut game, &[("f2", "f4"), ("e7", "e5"), ("g2", "g3"), ("d8", "h4")]);
    assert!(!game.in_check(Color::White));
    assert!(total_moves(&mut game, Color::White) > 0);
    assert_eq!(game.get_state(), GameState::InProgress);
}

#[test]
fn bare_kings_are_a_draw() {
    let mut game = Game::from_fen("8/8/8/4k3/8/4K3/8/8 w - - 0 1").unwrap();
    assert_eq!(game.get_state(), GameState::Draw(DrawState::InsufficientMaterial));
}

#[test]
fn minor_piece_material_draws() {
    let mut knight = Game::from_fen("8/8/8/4k3/8/4K3/8/6N1 w - - 0 1").unwrap();
    assert_eq!(knight.get_state(), GameState::Draw(DrawState::InsufficientMaterial));
    let mut two_knights = Game::from_fen("8/8/8/4k3/8/4K3/8/1N4N1 w - - 0 1").unwrap();
    assert_eq!(two_knights.get_state(), GameState::Draw(DrawState::InsufficientMaterial));
    let mut bishop = Game::from_fen("8/8/8/4k3/8/4K3/8/2b5 w - - 0 1").unwrap();
    assert_eq!(bishop.get_state(), GameState::Draw(DrawState::InsufficientMaterial));
    let mut bishop_knight = Game::from_fen("8/8/8/4k3/8/4K3/8/1N3B2 w - - 0 1").unwrap();
    assert_eq!(bishop_knight.get_state(), GameState::InProgress);
    let mut rook = Game::from_fen("8/8/8/4k3/8/4K3/8/7R w - - 0 1").unwrap();
    assert_eq!(rook.get_state(), GameState::InProgress);
}

#[test]
fn fifty_move_rule_draw() {
    let mut game = Game::from_fen("4k3/8/8/8/8/8/4P3/4K2R w - - 100 80").unwrap();
    assert!(!game.in_check(Color::White));
    assert!(total_moves(&mut game, Color::White) > 0);
    assert_eq!(game.get_state(), GameState::Draw(DrawState::FiftyMoveRule));
    let mut before = Game::from_fen("4k3/8/8/8/8/8/4P3/4K2R w - - 99 80").unwrap();
    assert_eq!(before.get_state(), GameState::InProgress);
}

#[test]
fn stalemate_is_a_draw() {
    let mut game = Game::from_fen("7k/5Q2/6K1/8/8/8/8/8 b - - 0 1").unwrap();
    assert!(!game.in_check(Color::Black));
    assert_eq!(game.get_state(), GameState::Draw(DrawState::Stalemate));
}

#[test]
fn en_passant_capture_removes_passed_pawn() {
    let mut game = Game::new_starting_pos();
    play(&mut game, &[("e2", "e4"), ("a7", "a6"), ("e4", "e5"), ("d7", "d5")]);
    assert_eq!(game.to_fen(), "rnbqkbnr/1pp1pppp/p7/3pP3/8/8/PPPP1PPP/RNBQKBNR w KQkq d6 0 3");
    let moves = game.get_legal_moves_alg_notation("e5").unwrap();
    assert!(moves.contains(&(2, 3)));
    assert_eq!(game.make_move("e5", "d6", true), Ok(true));
    assert_eq!(game.piece_at_alg_notation("d6"), Ok(Some(Piece::new(PieceType::Pawn, Color::White))));
    assert_eq!(game.piece_at_alg_notation("d5"), Ok(None));
    assert_eq!(game.piece_at_alg_notation("e5"), Ok(None));
}

#[test]
fn en_passant_expires_after_one_move() {
    let mut game = Game::new_starting_pos();
    play(&mut game, &[("e2", "e4"), ("a7", "a6"), ("e4", "e5"), ("d7", "d5"), ("b2", "b3"), ("a6", "a5")]);
    assert_eq!(game.make_move("e5", "d6", true), Ok(false));
    assert!(!game.get_legal_moves_alg_notation("e5").unwrap().contains(&(2, 3)));
}

#[test]
fn en_passant_only_for_adjacent_enemy_pawn() {
    let mut game = Game::from_fen("4k3/3p4/8/4P1P1/8/8/8/4K3 b - - 0 1").unwrap();
    play(&mut game, &[("d7", "d5")]);
    assert!(game.get_legal_moves_alg_notation("e5").unwrap().contains(&(2, 3)));
    assert!(!game.get_legal_moves_alg_notation("g5").unwrap().contains(&(2, 3)));
    assert_eq!(game.make_move("g5", "d6", true), Ok(false));
}

#[test]
fn kingside_castling_moves_king_and_rook() {
    let mut game = Game::from_fen("r3k2r/8/8/8/8/8/8/R3K2R w KQkq - 0 1").unwrap();
    assert!(game.get_legal_moves_alg_notation("e1").unwrap().contains(&(7, 6)));
    assert_eq!(game.make_move("e1", "g1", true), Ok(true));
    assert_eq!(game.piece_at_alg_notation("g1"), Ok(Some(Piece::new(PieceType::King, Color::White))));
    assert_eq!(game.piece_at_alg_notation("f1"), Ok(Some(Piece::new(PieceType::Rook, Color::White))));
    assert_eq!(game.piece_at_alg_notation("h1"), Ok(None));
    assert_eq!(game.piece_at_alg_notation("e1"), Ok(None));
    assert_eq!(game.to_fen(), "r3k2r/8/8/8/8/8/8/R4RK1 b kq - 1 1");
}

#[test]
fn castling_blocked_or_through_check() {
    let mut blocked = Game::from_fen("r3k2r/8/8/8/8/8/8/R3KB1R w KQkq - 0 1").unwrap();
    assert_eq!(blocked.make_move("e1", "g1", true), Ok(false));
    let mut attacked = Game::from_fen("4kr2/8/8/8/8/8/8/R3K2R w KQ - 0 1").unwrap();
    assert_eq!(attacked.make_move("e1", "g1", true), Ok(false));
    assert_eq!(attacked.make_move("e1", "c1", true), Ok(true));
    assert_eq!(attacked.piece_at_alg_notation("d1"), Ok(Some(Piece::new(PieceType::Rook, Color::White))));
    let mut in_check = Game::from_fen("4k3/8/8/8/8/8/8/R3K2r w Q - 0 1").unwrap();
    assert_eq!(in_check.make_move("e1", "c1", true), Ok(false));
    let mut no_right = Game::from_fen("r3k2r/8/8/8/8/8/8/R3K2R w Qkq - 0 1").unwrap();
    assert_eq!(no_right.make_move("e1", "g1", true), Ok(false));
}

#[test]
fn castling_rights_lost_for_good() {
    let mut game = Game::from_fen("r3k2r/8/8/8/8/8/8/R3K2R w KQkq - 0 1").unwrap();
    play(&mut game, &[("e1", "f1"), ("a8", "b8"), ("f1", "e1"), ("b8", "a8")]);
    assert_eq!(game.to_fen(), "r3k2r/8/8/8/8/8/8/R3K2R w k - 4 3");
    assert_eq!(game.make_move("e1", "g1", true), Ok(false));
    let mut taken = Game::from_fen("r3k2r/8/8/8/8/8/8/R3K2R w KQkq - 0 1").unwrap();
    play(&mut taken, &[("h1", "h8")]);
    assert_eq!(taken.to_fen(), "r3k2R/8/8/8/8/8/8/R3K3 b Qq - 0 1");
}

#[test]
fn undo_restores_capture_and_state() {
    let fen = "4k3/8/8/3p4/4P3/8/8/4K3 w - d6 7 12";
    let mut game = Game::from_fen(fen).unwrap();
    assert_eq!(game.make_move("e4", "d5", false), Ok(true));
    assert_eq!(game.get_captures(Color::White), vec![Piece::new(PieceType::Pawn, Color::Black)]);
    assert_eq!(game.get_active_player(), Color::Black);
    game.undo_last_move();
    assert_eq!(game.to_fen(), fen);
    assert_eq!(game.get_captures(Color::White), vec![]);
    assert_eq!(game.get_active_player(), Color::White);
    game.undo_last_move();
    assert_eq!(game.to_fen(), fen);
}

#[test]
fn undo_chain_returns_to_start() {
    let mut game = Game::new_starting_pos();
    let start = game.to_fen();
    play(&mut game, &[("e2", "e4"), ("d7", "d5"), ("e4", "d5"), ("d8", "d5")]);
    assert_eq!(game.get_captures(Color::Black), vec![Piece::new(PieceType::Pawn, Color::White)]);
    for _ in 0..4 {
        game.undo_last_move();
    }
    assert_eq!(game.to_fen(), start);
    assert_eq!(game.get_captures(Color::Black), vec![]);
}

#[test]
fn exchange_strings_round_trip() {
    for fen in [
        "rnbqkbnr/pppppppp/8/8/8/8/PPPPPPPP/RNBQKBNR w KQkq - 0 1",
        "rnbqkbnr/pppp1ppp/8/4p3/4P3/8/PPPP1PPP/RNBQKBNR w KQkq e6 0 2",
        "r3k2r/8/8/8/8/8/8/R3K2R b Kq - 5 40",
        "8/8/8/8/8/8/8/8 w - - 4294967295 0",
    ] {
        assert_eq!(Game::from_fen(fen).unwrap().to_fen(), fen);
    }
    let loose = Game::from_fen("  rnbqkbnr/pppppppp/8/8/8/8/PPPPPPPP/RNBQKBNR\tw qkQK - 00 01 extra").unwrap();
    assert_eq!(loose.to_fen(), "rnbqkbnr/pppppppp/8/8/8/8/PPPPPPPP/RNBQKBNR w KQkq - 0 1");
}

#[test]
fn malformed_exchange_strings_are_rejected() {
    for fen in [
        "",
        "rnbqkbnr/pppppppp/8/8/8/8/PPPPPPPP/RNBQKBNR w KQkq - 0",
        "rnbqkbnr/pppppppp/8/8/8/8/PPPPPPPP w KQkq - 0 1",
        "rnbqkbnr/pppppppp/9/8/8/8/PPPPPPPP/RNBQKBNR w KQkq - 0 1",
        "rnbqkbnr/ppppppp/8/8/8/8/PPPPPPPP/RNBQKBNR w KQkq - 0 1",
        "rnbqkbnr/pppppppp/8/8/8/8/PPPPPPPP/RNBQKBNX w KQkq - 0 1",
        "rnbqkbnr/pppppppp/8/8/8/8/PPPPPPPP/RNBQKBNR/ w KQkq - 0 1",
        "rnbqkbnr/pppppppp/8/8/8/8/PPPPPPPP/RNBQKBNR x KQkq - 0 1",
        "rnbqkbnr/pppppppp/8/8/8/8/PPPPPPPP/RNBQKBNR w KQx - 0 1",
        "rnbqkbnr/pppppppp/8/8/8/8/PPPPPPPP/RNBQKBNR w K- - 0 1",
        "rnbqkbnr/pppppppp/8/8/8/8/PPPPPPPP/RNBQKBNR w KQkq e9 0 1",
        "rnbqkbnr/pppppppp/8/8/8/8/PPPPPPPP/RNBQKBNR w KQkq - -1 1",
        "rnbqkbnr/pppppppp/8/8/8/8/PPPPPPPP/RNBQKBNR w KQkq - 0 x",
        "rnbqkbnr/pppppppp/8/8/8/8/PPPPPPPP/RNBQKBNR w KQkq - 4294967296 1",
    ] {
        assert!(Game::from_fen(fen).is_err(), "{}", fen);
    }
}

#[test]
fn square_notation_conversions() {
    assert_eq!(alg_notation_to_indx("e4"), Ok((4, 4)));
    assert_eq!(alg_notation_to_indx("a8"), Ok((0, 0)));
    assert_eq!(alg_notation_to_indx("h1"), Ok((7, 7)));
    for bad in ["", "e", "e44", "i1", "a9", "a0", "E4", "\u{f6}1"] {
        assert!(alg_notation_to_indx(bad).is_err(), "{}", bad);
    }
    assert_eq!(indx_to_alg_notation((4, 4)), Ok(String::from("e4")));
    assert_eq!(indx_to_alg_notation((0, 0)), Ok(String::from("a8")));
    assert_eq!(indx_to_alg_notation((7, 7)), Ok(String::from("h1")));
    assert!(indx_to_alg_notation((8, 0)).is_err());
    assert!(indx_to_alg_notation((0, 8)).is_err());
}

#[test]
fn indexed_access_and_errors() {
    let mut game = Game::new_starting_pos();
    assert!(game.piece_at_array_index((8, 0)).is_err());
    assert_eq!(game.piece_at_array_index((4, 4)), Ok(None));
    assert!(game.piece_at_alg_notation("z1").is_err());
    assert!(game.get_legal_moves_array_index((0, 8)).is_err());
    assert!(game.get_legal_moves_alg_notation("e9").is_err());
    assert_eq!(game.get_legal_moves_array_index((4, 4)), Ok(vec![]));
    assert_eq!(game.make_move_array_index((8, 0), (0, 0), true), Ok(false));
    assert_eq!(game.make_move_array_index((6, 4), (4, 4), true), Ok(true));
    assert_eq!(game.make_move_array_index((6, 3), (4, 3), true), Ok(false));
}

#[test]
fn pinned_piece_has_no_moves() {
    let mut game = Game::from_fen("4k3/4r3/8/8/8/8/4B3/4K3 w - - 0 1").unwrap();
    assert_eq!(game.get_legal_moves_alg_notation("e2"), Ok(vec![]));
    for (from, targets) in game.get_all_legal_moves(Color::White) {
        for to in targets {
            let mut next = game.clone();
            assert_eq!(next.make_move_array_index(from, to, true), Ok(true));
            assert!(!next.in_check(Color::White));
        }
    }
}

#[test]
fn promotion_choices() {
    let mut auto = Game::from_fen("8/1P6/8/8/8/8/1p6/8 w - - 0 1").unwrap();
    assert_eq!(auto.make_move("b7", "b8", true), Ok(true));
    assert_eq!(auto.piece_at_alg_notation("b8"), Ok(Some(Piece::new(PieceType::Queen, Color::White))));
    assert!(!auto.promote_to_piece(PieceType::Rook));

    let mut manual = Game::from_fen("8/1P6/8/8/8/8/1p6/8 w - - 0 1").unwrap();
    assert_eq!(manual.make_move("b7", "b8", false), Ok(true));
    assert_eq!(manual.get_state(), GameState::AwaitPromotion);
    assert_eq!(manual.make_move("b2", "b1", true), Ok(false));
    assert!(manual.promote_to_piece(PieceType::King));
    assert_eq!(manual.piece_at_alg_notation("b8"), Ok(Some(Piece::new(PieceType::King, Color::White))));
    assert!(!manual.promote_to_piece(PieceType::Queen));
    assert_eq!(manual.make_move("b2", "b1", false), Ok(true));
    assert!(manual.promote_to_piece(PieceType::Knight));
    assert_eq!(manual.piece_at_alg_notation("b1"), Ok(Some(Piece::new(PieceType::Knight, Color::Black))));
}

#[test]
fn colors_and_pieces() {
    assert_eq!(Color::White.opposite(), Color::Black);
    assert_eq!(Color::Black.opposite(), Color::White);
    let p = Piece::new(PieceType::Bishop, Color::Black);
    assert_eq!(p.piece_type, PieceType::Bishop);
    assert_eq!(p.color, Color::Black);
}

#[test]
fn board_diagram() {
    let game = Game::from_fen("8/8/8/4k3/8/4K3/8/7R w - - 0 1").unwrap();
    let expected = ". . . . . . . . \n\
                    . . . . . . . . \n\
                    . . . . . . . . \n\
                    . . . . k . . . \n\
                    . . . . . . . . \n\
                    . . . . K . . . \n\
                    . . . . . . . . \n\
                    . . . . . . . R \n";
    assert_eq!(game.board_string(), expected);
}
