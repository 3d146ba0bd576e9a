use chess_ai::game::Game;
use chess_ai::mcts::{
    ChessEvaluator, ChessMCTS, ChessMCTSState, ChessModel, CyclePolicy, ModelOutput, NodeStats,
    UniformModel,
};

use mcts::transposition_table::{ApproxTable, TranspositionHash};
use mcts::tree_policy::UCTPolicy;
use mcts::{CycleBehaviour, Evaluator, GameState, MCTSManager, SearchHandle, MCTS};

#[derive(Clone)]
struct SearchState(ChessMCTSState);

impl TranspositionHash for SearchState {
    fn hash(&self) -> u64 {
        self.0.hash()
    }
}

impl GameState for SearchState {
    type Move = String;
    type Player = String;
    type MoveList = Vec<String>;

    fn current_player(&self) -> String {
        self.0.current_player()
    }

    fn available_moves(&self) -> Vec<String> {
        self.0.available_moves()
    }

    fn make_move(&mut self, mov: &String) {
        self.0.try_make_move(mov).expect("Move should be legal");
    }
}

struct SearchEvaluator<M: ChessModel>(ChessEvaluator<M>);

impl<M: ChessModel> Evaluator<SearchSpec<M>> for SearchEvaluator<M> {
    type StateEvaluation = ModelOutput;

    fn evaluate_new_state(
        &self,
        state: &SearchState,
        moves: &Vec<String>,
        _: Option<SearchHandle<SearchSpec<M>>>,
    ) -> (Vec<()>, ModelOutput) {
        assert_eq!(moves.len(), state.0.available_moves().len());
        self.0.evaluate_new_state(&state.0, moves)
    }

    fn evaluate_existing_state(
        &self,
        state: &SearchState,
        eval: &ModelOutput,
        _handle: SearchHandle<SearchSpec<M>>,
    ) -> ModelOutput {
        self.0.evaluate_existing_state(&state.0, eval)
    }

    fn interpret_evaluation_for_player(&self, eval: &ModelOutput, player: &String) -> i64 {
        assert!(eval.value.abs() <= 10000);
        self.0.interpret_evaluation_for_player(eval, player)
    }
}

struct SearchSpec<M: ChessModel> {
    config: ChessMCTS,
    _marker: std::marker::PhantomData<M>,
}

impl<M: ChessModel> SearchSpec<M> {
    fn new() -> Self {
        SearchSpec { config: ChessMCTS, _marker: std::marker::PhantomData }
    }
}

impl<M: ChessModel> MCTS for SearchSpec<M> {
    type State = SearchState;
    type Eval = SearchEvaluator<M>;
    type NodeData = NodeStats;
    type ExtraThreadData = ();
    type TreePolicy = UCTPolicy;
    type TranspositionTable = ApproxTable<Self>;

    fn cycle_behaviour(&self) -> CycleBehaviour<Self> {
        match self.config.cycle_behaviour() {
            CyclePolicy::UseCurrentEvalWhenCycleDetected => {
                CycleBehaviour::UseCurrentEvalWhenCycleDetected
            }
            CyclePolicy::Ignore => CycleBehaviour::Ignore,
            _ => CycleBehaviour::PanicWhenCycleDetected,
        }
    }
}

#[test]
fn test_mcts_search() {
    let game = Game::new();
    let state = SearchState(ChessMCTSState::new(game));

    let mut mcts = MCTSManager::new(
        state,
        SearchSpec::<UniformModel>::new(),
        SearchEvaluator(ChessEvaluator::new(UniformModel)),
        UCTPolicy::new(0.5),
        ApproxTable::new(1024),
    );

    mcts.playout_n_parallel(1000, 4); // 1,000 playouts with 4 threads

    let best_move = mcts.best_move();
    assert!(best_move.is_some(), "MCTS should find a best move.");
}

struct MockModel;

impl ChessModel for MockModel {
    fn evaluate(&self, game: &Game) -> ModelOutput {
        // A mock value (neutral evaluation) and an equal weight per move.
        let n = game.legal_moves().len();
        let share = if n > 0 { 10000 / n as i64 } else { 0 };
        ModelOutput { value: 0, policy: vec![share; n] }
    }
}

#[test]
fn test_mcts_with_mock_model() {
    let game = Game::new();
    let state = SearchState(ChessMCTSState::new(game));

    let mut mcts = MCTSManager::new(
        state,
        SearchSpec::<MockModel>::new(),
        SearchEvaluator(ChessEvaluator::new(MockModel)),
        UCTPolicy::new(0.5),
        ApproxTable::new(1024),
    );

    mcts.playout_n_parallel(1000, 4); // 1,000 playouts with 4 threads

    let best_move = mcts.best_move();
    // print the best move
    println!("{:?}", best_move);
    assert!(best_move.is_some(), "MCTS should find a best move.");
}
