//! The evaluator protocol an external tree-search driver works against:
//! a search state wrapping a [`Game`], a scoring-function capability, the
//! evaluator that turns positions into values and policies, and the
//! per-node running statistics that concurrent playouts fold into.
//!
//! Values are fixed point throughout: one unit is one ten-thousandth, so
//! the real interval [-1, 1] is [-`VALUE_SCALE`, `VALUE_SCALE`].

use vstd::prelude::*;

use crate::board::{board_after, board_hash};
use crate::counts::CountTable;
use crate::game::{move_text, parse_move_spec, result_value_spec, Game, IllegalMoveError, VALUE_SCALE};
use vstd::arithmetic::div_mod::lemma_div_by_multiple;
use vstd::string::StringExecFns;

verus! {

/// One search-tree state: a game position plus its repetition history.
#[derive(Clone)]
pub struct ChessMCTSState {
    game: Game,
}

impl ChessMCTSState {
    /// The wrapped game.
    pub closed spec fn game_spec(&self) -> Game {
        self.game
    }

    pub fn new(game: Game) -> (r: Self)
        ensures
            r.game_spec() == game,
    {
        ChessMCTSState { game }
    }

    /// The transposition hash of the wrapped position.
    pub fn hash(&self) -> (r: u64)
        ensures
            r == self.game_spec().hash_spec(),
    {
        self.game.get_hash()
    }

    /// The player to move, as the search driver names players.
    pub fn current_player(&self) -> (r: String)
        ensures
            r@ == (if self.game_spec().white_to_move_spec() {
                "White"@
            } else {
                "Black"@
            }),
    {
        String::from_str(self.game.current_player())
    }

    /// Every available move's text, or nothing once the game is over.
    pub fn available_moves(&self) -> (r: Vec<String>)
        requires
            self.game_spec().wf(),
        ensures
            r@.len() == self.game_spec().legal_moves_len(),
            forall|i: int|
                0 <= i < r@.len() ==> r@[i]@ == move_text(
                    self.game_spec().moves()[i].0,
                    self.game_spec().moves()[i].1,
                    self.game_spec().moves()[i].2,
                ),
    {
        self.game.legal_moves()
    }

    /// Play a move already known to be legal here, advancing the state
    /// and counting the new position once more in the repetition table.
    pub fn make_move(&mut self, mov: &String)
        requires
            old(self).game_spec().wf(),
            old(self).game_spec().history().len() < u32::MAX,
            parse_move_spec(mov@) is Some,
            old(self).game_spec().moves().contains(parse_move_spec(mov@)->0),
        ensures
            final(self).game_spec().wf(),
            ({
                let mv = parse_move_spec(mov@)->0;
                let nb = board_after(old(self).game_spec().board_rep(), mv.0, mv.1, mv.2);
                let nh = board_hash(nb);
                &&& final(self).game_spec().board_rep() == nb
                &&& final(self).game_spec().white_to_move_spec() == !old(
                    self,
                ).game_spec().white_to_move_spec()
                &&& final(self).game_spec().history() == old(self).game_spec().history().push(nh)
                &&& final(self).game_spec().table() == CountTable::bumped(
                    old(self).game_spec().table(),
                    nh,
                )
            }),
    {
        match self.game.make_move(mov.as_str()) {
            Ok(_) => {},
            Err(_) => {
                proof {
                    assert(false);
                }
            },
        }
    }

    /// Play a move with the legality test included: the checked entry for
    /// callers that cannot establish legality beforehand. On failure the
    /// state is untouched and the error says what was wrong with the text.
    pub fn try_make_move(&mut self, mov: &str) -> (r: Result<(), IllegalMoveError>)
        requires
            old(self).game_spec().wf(),
            old(self).game_spec().history().len() < u32::MAX,
        ensures
            final(self).game_spec().wf(),
            match r {
                Ok(_) => ({
                    let mv = parse_move_spec(mov@)->0;
                    let nb = board_after(old(self).game_spec().board_rep(), mv.0, mv.1, mv.2);
                    let nh = board_hash(nb);
                    &&& parse_move_spec(mov@) is Some
                    &&& old(self).game_spec().moves().contains(mv)
                    &&& final(self).game_spec().board_rep() == nb
                    &&& final(self).game_spec().history() == old(
                        self,
                    ).game_spec().history().push(nh)
                    &&& final(self).game_spec().table() == CountTable::bumped(
                        old(self).game_spec().table(),
                        nh,
                    )
                }),
                Err(e) => ({
                    &&& *final(self) == *old(self)
                    &&& old(self).game_spec().move_error_spec(mov@, &e)
                }),
            },
    {
        match self.game.make_move(mov) {
            Ok(_) => Ok(()),
            Err(e) => Err(e),
        }
    }
}

/// A position evaluation: a fixed-point value in
/// [-`VALUE_SCALE`, `VALUE_SCALE`], positive favouring White, and one
/// nonnegative weight per legal move of the position it was computed on.
pub struct ModelOutput {
    pub value: i64,
    pub policy: Vec<i64>,
}

impl ModelOutput {
    pub open spec fn wf(&self) -> bool {
        &&& -(VALUE_SCALE as int) <= self.value as int <= VALUE_SCALE as int
        &&& forall|i: int| 0 <= i < self.policy@.len() ==> self.policy@[i] >= 0
    }
}

/// A scoring function: anything that turns a position into an evaluation
/// whose value stays in range and whose policy has one entry per
/// available move — none once the game is over.
pub trait ChessModel: Sized + Send + Sync {
    fn evaluate(&self, game: &Game) -> (r: ModelOutput)
        requires
            game.wf(),
        ensures
            r.wf(),
            r.policy@.len() == game.legal_moves_len(),
    ;
}

/// The fixed stub: value zero everywhere, the policy uniform over the
/// available moves.
pub struct UniformModel;

impl ChessModel for UniformModel {
    fn evaluate(&self, game: &Game) -> (r: ModelOutput) {
        let moves = game.legal_moves();
        let n = moves.len();
        let mut policy: Vec<i64> = Vec::new();
        let share: i64 = if n > 0 {
            ((VALUE_SCALE as u64) / (n as u64)) as i64
        } else {
            0
        };
        let mut i: usize = 0;
        while i < n
            invariant
                0 <= i <= n,
                policy@.len() == i,
                share >= 0,
                forall|k: int| 0 <= k < i ==> policy@[k] == share,
            decreases n - i,
        {
            policy.push(share);
            i = i + 1;
        }
        ModelOutput { value: 0, policy }
    }
}

/// Adapts a scoring function and the terminal rules into what the search
/// driver asks of an evaluator.
pub struct ChessEvaluator<M: ChessModel> {
    model: M,
}

impl<M: ChessModel> ChessEvaluator<M> {
    pub fn new(model: M) -> (r: Self) {
        ChessEvaluator { model }
    }

    /// The terminal value of a state, zero while the game goes on.
    pub fn evaluate_state(&self, state: &ChessMCTSState) -> (r: i64)
        requires
            state.game_spec().wf(),
        ensures
            r as int == result_value_spec(state.game_spec().classify_spec()),
    {
        let terminal_value = state.game.result_value();
        if terminal_value != 0 {
            return terminal_value;
        }
        0
    }

    /// Evaluate a freshly reached state. A finished game gets its
    /// terminal value and an empty policy without the scoring function
    /// ever being consulted; otherwise the scoring function answers, and
    /// its policy has one entry per available move.
    pub fn evaluate_new_state(&self, state: &ChessMCTSState, moves: &Vec<String>) -> (r: (
        Vec<()>,
        ModelOutput,
    ))
        requires
            state.game_spec().wf(),
            moves@.len() == state.game_spec().legal_moves_len(),
        ensures
            r.0@.len() == moves@.len(),
            r.1.wf(),
            r.1.policy@.len() == moves@.len(),
            state.game_spec().terminal_spec() ==> r.1.value as int == result_value_spec(
                state.game_spec().classify_spec(),
            ) && r.1.policy@.len() == 0,
    {
        let out = if state.game.is_terminal() {
            let v = state.game.result_value();
            ModelOutput { value: v, policy: Vec::new() }
        } else {
            self.model.evaluate(&state.game)
        };
        let mut units: Vec<()> = Vec::new();
        let mut i: usize = 0;
        let n = moves.len();
        while i < n
            invariant
                0 <= i <= n,
                units@.len() == i,
            decreases n - i,
        {
            units.push(());
            i = i + 1;
        }
        (units, out)
    }

    /// Hand back the evaluation already stored for an expanded state.
    pub fn evaluate_existing_state(&self, _state: &ChessMCTSState, eval: &ModelOutput) -> (r:
        ModelOutput)
        ensures
            r.value == eval.value,
            r.policy@ == eval.policy@,
    {
        let mut policy: Vec<i64> = Vec::new();
        let n = eval.policy.len();
        let mut i: usize = 0;
        while i < n
            invariant
                0 <= i <= n,
                n == eval.policy@.len(),
                policy@ == eval.policy@.take(i as int),
            decreases n - i,
        {
            policy.push(eval.policy[i]);
            proof {
                assert(policy@ =~= eval.policy@.take(i as int + 1));
            }
            i = i + 1;
        }
        proof {
            assert(policy@ =~= eval.policy@);
        }
        ModelOutput { value: eval.value, policy }
    }

    /// The driver-comparable score of an evaluation, from the named
    /// player's side. This is the only place a perspective flip happens:
    /// everything else stays in the positive-favours-White convention.
    pub fn interpret_evaluation_for_player(&self, eval: &ModelOutput, player: &String) -> (r: i64)
        requires
            eval.wf(),
        ensures
            r as int == score_for_spec(eval.value as int, player@),
    {
        let w = String::from_str("White");
        if *player == w {
            eval.value
        } else {
            -eval.value
        }
    }
}

/// The score of a fixed-point value `v` seen from a player: `v` itself
/// for White, its negation for anyone else.
pub open spec fn score_for_spec(v: int, player: Seq<char>) -> int {
    if player == "White"@ {
        v
    } else {
        -v
    }
}

/// The one perspective flip is antisymmetric: for every value, the score
/// for White is exactly the negation of the score for Black.
pub proof fn lemma_score_antisymmetric(v: int)
    ensures
        score_for_spec(v, "White"@) == -score_for_spec(v, "Black"@),
{
    reveal_strlit("White");
    reveal_strlit("Black");
    assert("White"@.len() == 5 && "Black"@.len() == 5);
    assert("White"@[0] == 'W' && "Black"@[0] == 'B');
    assert("White"@ != "Black"@);
}

/// The truncated-toward-zero mean of a total over a visit count, zero
/// when nothing was visited yet.
pub open spec fn mean_of(t: int, n: int) -> int {
    if n == 0 {
        0
    } else if t >= 0 {
        t / n
    } else {
        -((-t) / n)
    }
}

/// The running aggregate one search-tree node keeps: how often it was
/// visited, the sum of all folded values, and their truncated mean.
/// A node's statistics are owned by that node and folded into under the
/// driver's per-node exclusive access — the `&mut` borrow of `fold_into`
/// is that discipline, and under it no update can be lost.
pub struct NodeStats {
    visits: u32,
    total_value: i64,
    mean_value: i64,
}

impl NodeStats {
    pub closed spec fn visits_spec(&self) -> u32 {
        self.visits
    }

    pub closed spec fn total_spec(&self) -> i64 {
        self.total_value
    }

    pub closed spec fn mean_spec(&self) -> i64 {
        self.mean_value
    }

    /// The total stays within `visits * VALUE_SCALE` and the mean is the
    /// truncated average of the total.
    pub closed spec fn wf(&self) -> bool {
        &&& -(self.visits as int * VALUE_SCALE as int) <= self.total_value as int <= self.visits
            as int * VALUE_SCALE as int
        &&& self.mean_value as int == mean_of(self.total_value as int, self.visits as int)
    }

    pub fn visits(&self) -> (r: u32)
        ensures
            r == self.visits_spec(),
    {
        self.visits
    }

    pub fn total_value(&self) -> (r: i64)
        ensures
            r == self.total_spec(),
    {
        self.total_value
    }

    pub fn mean_value(&self) -> (r: i64)
        ensures
            r == self.mean_spec(),
    {
        self.mean_value
    }

    /// Fold one playout's value into the node: one more visit, the value
    /// added to the total, the mean recomputed as total over visits.
    pub fn fold_into(&mut self, value: i64)
        requires
            old(self).wf(),
            old(self).visits_spec() < u32::MAX,
            -(VALUE_SCALE as int) <= value as int <= VALUE_SCALE as int,
        ensures
            final(self).wf(),
            final(self).visits_spec() == old(self).visits_spec() + 1,
            final(self).total_spec() == old(self).total_spec() + value,
            final(self).mean_spec() as int == mean_of(
                final(self).total_spec() as int,
                final(self).visits_spec() as int,
            ),
    {
        self.visits = self.visits + 1;
        self.total_value = self.total_value + value;
        let neg = self.total_value < 0;
        let mag: u64 = if neg {
            (-self.total_value) as u64
        } else {
            self.total_value as u64
        };
        let q: u64 = mag / (self.visits as u64);
        proof {
            assert(q <= mag) by (nonlinear_arith)
                requires
                    q == mag as int / (self.visits as int),
                    self.visits >= 1,
                    mag >= 0,
            ;
        }
        self.mean_value = if neg {
            -(q as i64)
        } else {
            q as i64
        };
    }
}

impl Default for NodeStats {
    /// A fresh node: nothing visited, zero total, zero mean.
    fn default() -> (r: NodeStats)
        ensures
            r.wf(),
            r.visits_spec() == 0,
            r.total_spec() == 0,
            r.mean_spec() == 0,
    {
        NodeStats { visits: 0, total_value: 0, mean_value: 0 }
    }
}

/// The sum of a sequence of folded values, in fold order.
pub open spec fn sum_seq(vs: Seq<i64>) -> int
    decreases vs.len(),
{
    if vs.len() == 0 {
        0
    } else {
        sum_seq(vs.drop_last()) + vs.last()
    }
}

proof fn lemma_sum_constant(vs: Seq<i64>, v: i64)
    requires
        forall|i: int| 0 <= i < vs.len() ==> vs[i] == v,
    ensures
        sum_seq(vs) == vs.len() * v,
    decreases vs.len(),
{
    if vs.len() > 0 {
        lemma_sum_constant(vs.drop_last(), v);
        assert((vs.len() - 1) * v + v == vs.len() * v) by (nonlinear_arith);
    }
}

/// Serialized concurrent folds lose no update: `fold_into` adds exactly
/// one visit and one value each time, so after the calls of `vs.len()`
/// playout workers — serialized in whatever order — a fresh node has seen
/// `vs.len()` visits and the sum of `vs` as its total. With every folded
/// value equal to `v`, the total is `vs.len() * v` and the mean is
/// exactly `v` again.
pub proof fn lemma_folds_lose_no_update(vs: Seq<i64>, v: i64)
    requires
        0 < vs.len(),
        forall|i: int| 0 <= i < vs.len() ==> vs[i] == v,
        -(VALUE_SCALE as int) <= v as int <= VALUE_SCALE as int,
    ensures
        sum_seq(vs) == vs.len() * v,
        mean_of(sum_seq(vs), vs.len() as int) == v,
{
    lemma_sum_constant(vs, v);
    let n = vs.len() as int;
    if v >= 0 {
        lemma_div_by_multiple(v as int, n);
        assert(n * v == v * n) by (nonlinear_arith);
        assert((v as int * n) / n == v);
    } else {
        lemma_div_by_multiple(-(v as int), n);
        assert(-(n * v) == (-v) * n) by (nonlinear_arith);
        assert(((-v as int) * n) / n == -v);
        assert(mean_of(n * v, n) == -((-(n * v)) / n));
    }
}

/// How the search driver should treat a transposition cycle.
#[derive(Debug, Clone, Copy, PartialEq, Eq, Structural)]
pub enum CyclePolicy {
    Ignore,
    UseCurrentEvalWhenCycleDetected,
    UseThisEvalWhenCycleDetected,
    PanicWhenCycleDetected,
}

/// The search configuration this library asks of the driver.
pub struct ChessMCTS;

impl ChessMCTS {
    /// On a transposition cycle the driver reuses the current evaluation
    /// instead of recursing into the repeated position.
    pub fn cycle_behaviour(&self) -> (r: CyclePolicy)
        ensures
            r is UseCurrentEvalWhenCycleDetected,
    {
        CyclePolicy::UseCurrentEvalWhenCycleDetected
    }
}

impl Default for ChessMCTS {
    fn default() -> (r: ChessMCTS)
        ensures
            r == ChessMCTS,
    {
        ChessMCTS
    }
}

} // verus!
