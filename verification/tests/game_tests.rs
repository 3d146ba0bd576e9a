use chess_ai::game::{Game, GameResult};

#[test]
fn test_initial_moves_count() {
    let game = Game::new();
    let legal_moves = game.legal_moves();
    // In standard chess, from the initial position, there are 20 legal moves.
    assert_eq!(legal_moves.len(), 20, "Should have exactly 20 moves at the start.");
}

#[test]
fn test_make_move() {
    let mut game = Game::new();
    let initial_moves = game.legal_moves();

    // "e2e4" is a known standard chess opening move.
    assert!(initial_moves.contains(&"e2e4".to_string()), "Initial moves must include 'e2e4'.");

    // Make the move and get a new game state.
    game = game.make_move("e2e4").expect("Move e2e4 should be legal and succeed.");

    let new_moves = game.legal_moves();
    // After the move, the position should no longer be the same as the initial position.
    assert_ne!(initial_moves, new_moves, "Legal moves should differ after making a move.");
}

#[test]
fn test_checkmate_detection() {
    let mut game = Game::new();
    // 1. White: f2f3
    game = game.make_move("f2f3").expect("f2f3 should be legal");
    assert!(!game.is_terminal(), "Game should not be terminal after f2f3.");

    // 2. Black: e7e5
    game = game.make_move("e7e5").expect("e7e5 should be legal");
    assert!(!game.is_terminal(), "Game should not be terminal after e7e5.");

    // 3. White: g2g4
    game = game.make_move("g2g4").expect("g2g4 should be legal");
    assert!(!game.is_terminal(), "Game should not be terminal after g2g4.");

    // 4. Black: d8h4 (Checkmate move)
    game = game.make_move("d8h4").expect("d8h4 should be legal");
    assert!(game.is_terminal(), "Game should be terminal (checkmate) after d8h4.");
}

#[test]
fn test_current_player_switches() {
    let mut game = Game::new();
    let initial_moves = game.legal_moves();

    // Initial position: White to move.
    let current_player = game.current_player();
    assert_eq!(current_player, "White", "Game should start with White to move.");

    // Make one White move, e.g. "e2e4".
    assert!(initial_moves.contains(&"e2e4".to_string()), "Initial moves must include 'e2e4'.");
    game = game.make_move("e2e4").expect("e2e4 should be legal");

    // Now it should be Black's turn.
    let current_player = game.current_player();
    assert_eq!(current_player, "Black", "After White moves, it should be Black's turn.");

    // Make one Black move, e.g. "e7e5".
    let moves_after_white = game.legal_moves();
    assert!(moves_after_white.contains(&"e7e5".to_string()), "Moves must include 'e7e5' for Black.");
    game = game.make_move("e7e5").expect("e7e5 should be legal");

    // Now it should be White's turn again.
    let current_player = game.current_player();
    assert_eq!(current_player, "White", "After Black moves, it should be White's turn again.");
}

#[test]
fn test_stalemate_detection_korchnoi_karpov() {
    let stalemate_fen = "7k/5Q2/8/8/8/8/8/7K b - - 0 1";
    let game = Game::from_fen(stalemate_fen)
        .expect("Should be able to create a board from a legal stalemate FEN");

    assert!(game.is_terminal(), "Game should be terminal due to stalemate.");
    let legal_moves = game.legal_moves();
    assert_eq!(legal_moves.len(), 0, "No legal moves should be available in stalemate.");
}

#[test]
fn test_insufficient_material() {
    let fen = "8/8/8/8/8/6K1/8/2k5 w - - 0 1";
    let game = Game::from_fen(fen).expect("Should parse fen for kings only");
    assert!(game.is_terminal(), "Game should be terminal due to insufficient material.");
    let legal_moves = game.legal_moves();
    assert_eq!(legal_moves.len(), 0, "No legal moves expected due to insufficient material.");
}

#[test]
fn test_threefold_repetition() {
    let mut game = Game::new();
    // Start from initial position.
    // Sequence of moves:
    // 1. White: g1f3 Black: b8c6
    // 2. White: f3g1 Black: c6b8  (position repeats)
    // 3. White: g1f3 Black: b8c6
    // 4. White: f3g1 Black: c6b8  (position repeats again, now third time total)

    let moves = [
        "g1f3", "b8c6", // first cycle
        "f3g1", "c6b8", // back to start (second occurrence)
        "g1f3", "b8c6", // third cycle begins
        "f3g1", "c6b8", // back to start (third occurrence)
    ];

    for mov in &moves {
        game = game.make_move(mov).expect("Moves should be legal");
    }

    assert!(game.is_terminal(), "Game should be terminal due to threefold repetition.");
    assert!(game.is_threefold_repetition(), "Threefold repetition should be detected.");
    let legal_moves = game.legal_moves();
    assert_eq!(legal_moves.len(), 0, "No legal moves should be available due to draw.");
}

#[test]
fn test_fifty_move_rule() {
    let mut game = Game::new();
    // We'll just move knights back and forth without any pawns or captures.
    assert!(game.is_terminal() == false, "Initial position should not be terminal.");
    for _ in 0..25 {
        game = game.make_move("g1f3").expect("Move should be legal");
        game = game.make_move("b8c6").expect("Move should be legal");
        game = game.make_move("f3g1").expect("Move should be legal");
        game = game.make_move("c6b8").expect("Move should be legal");
    }

    assert!(game.is_terminal(), "Game should be terminal due to the fifty-move rule draw.");
    let legal_moves = game.legal_moves();
    assert_eq!(legal_moves.len(), 0, "No legal moves should be available because the game is a draw.");
}

#[test]
fn test_en_passant() {
    let fen = "rnbqkbnr/ppppp1pp/8/5p2/4P3/8/PPPP1PPP/RNBQKBNR w KQkq f6 0 1";
    // This FEN represents a position where White's pawn on e4 may capture the
    // f5 pawn.

    let mut game = Game::from_fen(fen).expect("Should parse fen");

    let legal_moves = game.legal_moves();
    assert!(legal_moves.contains(&"e4f5".to_string()), "En passant capture should be legal.");

    // Make the capture:
    game = game.make_move("e4f5").expect("En passant should work.");
    let _ = game;
}

#[test]
fn test_promotion() {
    // A White pawn on g7, White to move.
    let fen = "8/6P1/8/8/8/8/8/4K2k w - - 0 1";
    let mut game = Game::from_fen(fen).expect("Should parse fen");

    // Check that every promotion move is legal (g7-g8).
    let legal_moves = game.legal_moves();
    println!("{:?}", legal_moves);
    assert!(legal_moves.contains(&"g7g8q".to_string()), "Promotion to queen should be legal.");
    assert!(legal_moves.contains(&"g7g8r".to_string()), "Promotion to rook should be legal.");
    assert!(legal_moves.contains(&"g7g8b".to_string()), "Promotion to bishop should be legal.");
    assert!(legal_moves.contains(&"g7g8n".to_string()), "Promotion to knight should be legal.");

    // Choose one promotion, say to a queen:
    game = game.make_move("g7g8q").expect("Pawn promotion to queen should be allowed.");
    let _ = game;
}

#[test]
fn test_castling() {
    // White king on e1, rooks on a1 and h1, both castling rights intact.
    let fen = "r3k2r/8/8/8/8/8/8/R3K2R w KQkq - 0 1";
    let mut game = Game::from_fen(fen).expect("Should parse fen");

    let legal_moves = game.legal_moves();
    assert!(legal_moves.contains(&"e1g1".to_string()), "White should be able to castle kingside.");
    assert!(legal_moves.contains(&"e1c1".to_string()), "White should be able to castle queenside.");

    // Make a castling move, say kingside:
    game = game.make_move("e1g1").expect("Should be able to castle kingside");
    let _ = game;
}

#[test]
fn test_game_results() {
    // Test checkmate (Scholar's mate)
    let mut game = Game::new();
    game.make_move("e2e4").unwrap();
    game.make_move("e7e5").unwrap();
    game.make_move("f1c4").unwrap();
    game.make_move("b8c6").unwrap();
    game.make_move("d1h5").unwrap();
    game.make_move("g8f6").unwrap();
    game.make_move("h5f7").unwrap();

    assert!(game.is_terminal());
    assert_eq!(game.get_game_result(), Some(GameResult::WhiteWin));

    // Test threefold repetition
    let mut game = Game::new();
    // Make moves that repeat the position three times
    game.make_move("g1f3").unwrap();
    game.make_move("g8f6").unwrap();
    game.make_move("f3g1").unwrap();
    game.make_move("f6g8").unwrap();
    game.make_move("g1f3").unwrap();
    game.make_move("g8f6").unwrap();
    game.make_move("f3g1").unwrap();
    game.make_move("f6g8").unwrap();

    assert!(game.is_terminal());
    assert_eq!(game.get_game_result(), Some(GameResult::Draw));
}

#[test]
fn test_encoding_initial_position() {
    // Standard initial chess position, with the indexing scheme
    // row=0 => rank 1 (bottom), column=0 => file a:
    // encoded[0..6] corresponds to a1, [6..12] to b1, and so on.
    let fen = "rnbqkbnr/pppppppp/8/8/8/8/PPPPPPPP/RNBQKBNR w KQkq - 0 1";
    let game = Game::from_fen(fen).expect("Should parse FEN");

    let encoded: Vec<f32> = game.encode().iter().map(|&x| x as f32).collect();
    assert_eq!(encoded.len(), 384, "Encoded vector should have length 384 (8*8*6).");

    // a1 should have a White Rook: [0,0,0,1,0,0]
    let a1_index = 0;
    let a1_slice = &encoded[a1_index..a1_index + 6];
    assert_eq!(a1_slice, &[0.0, 0.0, 0.0, 1.0, 0.0, 0.0], "a1 should be a white rook");

    // e1 should have a White King: index = (0*8 + 4)*6 = 24
    let e1_index = 24;
    let e1_slice = &encoded[e1_index..e1_index + 6];
    assert_eq!(e1_slice, &[0.0, 0.0, 0.0, 0.0, 0.0, 1.0], "e1 should be a white king");

    // a8 should have a Black Rook: index = (7*8 + 0)*6 = 336
    let a8_index = 336;
    let a8_slice = &encoded[a8_index..a8_index + 6];
    assert_eq!(a8_slice, &[0.0, 0.0, 0.0, -1.0, 0.0, 0.0], "a8 should be a black rook");

    // e8 should have a Black King: index = (7*8+4)*6 = 360
    let e8_index = 360;
    let e8_slice = &encoded[e8_index..e8_index + 6];
    assert_eq!(e8_slice, &[0.0, 0.0, 0.0, 0.0, 0.0, -1.0], "e8 should be a black king");

    // e4 is empty in the starting position: index = (3*8+4)*6 = 168
    let e4_index = 168;
    let e4_slice = &encoded[e4_index..e4_index + 6];
    assert_eq!(e4_slice, &[0.0, 0.0, 0.0, 0.0, 0.0, 0.0], "e4 should be empty");
}
