use chess_ai::game::{Game, IllegalMoveError};
use chess_ai::mcts::{
    ChessEvaluator, ChessMCTS, ChessMCTSState, CyclePolicy, ModelOutput, NodeStats, UniformModel,
};

#[test]
fn test_available_moves() {
    let game = Game::new();
    let state = ChessMCTSState::new(game);
    let moves = state.available_moves();
    assert!(!moves.is_empty(), "There should be available moves.");
}

#[test]
fn test_state_hash_follows_position() {
    // Shuttling the knights out and back returns to the starting position,
    // so the structural hash must return to the starting hash too.
    let start_hash = ChessMCTSState::new(Game::new()).hash();
    let mut game = Game::new();
    for mov in ["g1f3", "b8c6", "f3g1", "c6b8"] {
        game = game.make_move(mov).expect("Move should be legal");
    }
    let back = ChessMCTSState::new(game);
    assert_eq!(back.hash(), start_hash);
}

#[test]
fn test_state_current_player_and_move() {
    let mut state = ChessMCTSState::new(Game::new());
    assert_eq!(state.current_player(), "White".to_string());
    state.make_move(&"e2e4".to_string());
    assert_eq!(state.current_player(), "Black".to_string());
}

#[test]
fn test_uniform_model_policy() {
    // 20 legal moves at the start: the uniform policy holds 20 entries of
    // 10000 / 20 = 500 each, and the stub's value is zero.
    let game = Game::new();
    let evaluator = ChessEvaluator::new(UniformModel);
    let state = ChessMCTSState::new(game);
    let moves = state.available_moves();
    let (units, output) = evaluator.evaluate_new_state(&state, &moves);
    assert_eq!(units.len(), 20);
    assert_eq!(output.value, 0);
    assert_eq!(output.policy.len(), 20);
    assert!(output.policy.iter().all(|&p| p == 500));
}

#[test]
fn test_evaluate_terminal_short_circuits() {
    // A stalemate position evaluates to 0 with an empty policy, without
    // consulting the scoring function.
    let game = Game::from_fen("7k/5Q2/8/8/8/8/8/7K b - - 0 1").expect("Should parse fen");
    let evaluator = ChessEvaluator::new(UniformModel);
    let state = ChessMCTSState::new(game);
    let moves = state.available_moves();
    assert_eq!(moves.len(), 0);
    let (_, output) = evaluator.evaluate_new_state(&state, &moves);
    assert_eq!(output.value, 0);
    assert_eq!(output.policy.len(), 0);

    // A checkmated position evaluates to the winner's value: after the
    // fool's mate sequence Black has won, so the value is -10000.
    let mut game = Game::new();
    for mov in ["f2f3", "e7e5", "g2g4", "d8h4"] {
        game = game.make_move(mov).expect("Move should be legal");
    }
    let state = ChessMCTSState::new(game);
    let moves = state.available_moves();
    assert_eq!(moves.len(), 0);
    let (_, output) = evaluator.evaluate_new_state(&state, &moves);
    assert_eq!(output.value, -10000);
    assert_eq!(output.policy.len(), 0);
    assert_eq!(evaluator.evaluate_state(&state), -10000);
}

#[test]
fn test_evaluate_existing_state_keeps_evaluation() {
    let evaluator = ChessEvaluator::new(UniformModel);
    let state = ChessMCTSState::new(Game::new());
    let eval = ModelOutput { value: 4321, policy: vec![100, 200, 300] };
    let copy = evaluator.evaluate_existing_state(&state, &eval);
    assert_eq!(copy.value, 4321);
    assert_eq!(copy.policy, vec![100, 200, 300]);
}

#[test]
fn test_score_perspective_flip() {
    // score_for(output, "White") == -score_for(output, "Black") for any value.
    let evaluator = ChessEvaluator::new(UniformModel);
    for v in [-10000i64, -1234, 0, 1, 9999] {
        let output = ModelOutput { value: v, policy: Vec::new() };
        let white = evaluator.interpret_evaluation_for_player(&output, &"White".to_string());
        let black = evaluator.interpret_evaluation_for_player(&output, &"Black".to_string());
        assert_eq!(white, v);
        assert_eq!(black, -v);
        assert_eq!(white, -black);
    }
}

#[test]
fn test_fold_into_accumulates() {
    // N folds of the same value leave visits == N and mean == that value.
    let mut stats = NodeStats::default();
    let n = 7u32;
    for _ in 0..n {
        stats.fold_into(5000);
    }
    assert_eq!(stats.visits(), 7);
    assert_eq!(stats.total_value(), 35000);
    assert_eq!(stats.mean_value(), 5000);
}

#[test]
fn test_fold_into_mixed_values() {
    let mut stats = NodeStats::default();
    assert_eq!(stats.visits(), 0);
    assert_eq!(stats.mean_value(), 0);
    stats.fold_into(10000);
    stats.fold_into(-10000);
    assert_eq!(stats.visits(), 2);
    assert_eq!(stats.total_value(), 0);
    assert_eq!(stats.mean_value(), 0);
    stats.fold_into(-7000);
    assert_eq!(stats.visits(), 3);
    assert_eq!(stats.total_value(), -7000);
    // Truncated toward zero: -7000 / 3 = -2333.
    assert_eq!(stats.mean_value(), -2333);
}

#[test]
fn test_make_move_error_variants() {
    let mut game = Game::new();
    match game.make_move("e2") {
        Err(IllegalMoveError::BadLength(_)) => {},
        other => panic!("expected BadLength, got {:?}", other.map(|_| ())),
    }
    match game.make_move("z2e4") {
        Err(IllegalMoveError::BadFromSquare(_)) => {},
        other => panic!("expected BadFromSquare, got {:?}", other.map(|_| ())),
    }
    match game.make_move("e2i9") {
        Err(IllegalMoveError::BadToSquare(_)) => {},
        other => panic!("expected BadToSquare, got {:?}", other.map(|_| ())),
    }
    match game.make_move("e2e4x") {
        Err(IllegalMoveError::BadPromotion(_)) => {},
        other => panic!("expected BadPromotion, got {:?}", other.map(|_| ())),
    }
    let err = match game.make_move("e2e5") {
        Err(e) => e,
        Ok(_) => panic!("e2e5 should not be legal from the start"),
    };
    assert!(matches!(err, IllegalMoveError::NotLegal(_)));
    assert_eq!(err.text(), "e2e5");
    // A failed move leaves the state untouched.
    assert_eq!(game.legal_moves().len(), 20);
}

#[test]
fn test_result_value_fixed_point() {
    let game = Game::new();
    assert_eq!(game.result_value(), 0);
    let mut game = Game::new();
    for mov in ["e2e4", "e7e5", "f1c4", "b8c6", "d1h5", "g8f6", "h5f7"] {
        game = game.make_move(mov).expect("Move should be legal");
    }
    // Scholar's mate: White has won.
    assert_eq!(game.result_value(), 10000);
}

#[test]
fn test_from_fen_rejects_garbage() {
    assert!(Game::from_fen("this is not a fen").is_err());
}

#[test]
fn test_cycle_behaviour() {
    let config = ChessMCTS;
    assert_eq!(config.cycle_behaviour(), CyclePolicy::UseCurrentEvalWhenCycleDetected);
}
