//! The bounded Newton iteration as a state machine, and the loop that runs it.
//!
//! The machine decides when to stop and how to classify the outcome; the
//! numbers it decides on come from an evaluation that the caller supplies.

use crate::binary64::{
    at_most, is_finite, is_nan, is_zero, magnitude, spec_at_most, spec_is_finite, spec_is_nan,
    spec_is_zero, spec_magnitude, ONE,
};
use crate::pairs::LinePair;
use crate::table::{CrossSectionTable, Sample};
use vstd::prelude::*;

verus! {

/// The default tolerance and finite-difference step: ten times the gap
/// between `1.0` and the next number.
pub const DEFAULT_TOLERANCE: u64 = 0x3CE4_0000_0000_0000;

/// The default iteration cap.
pub const DEFAULT_MAX_ITERATIONS: usize = 10000;

/// The parameters of one solve. `tolerance` bounds the residual of a
/// converged solve; `step` is the offset from the temperature at which the
/// evaluation takes its second sample; `max_iterations` caps the number of
/// evaluations. By default the step equals the tolerance.
#[derive(Clone, Copy, Debug, PartialEq, Eq, Structural)]
pub struct SolverConfig {
    pub tolerance: u64,
    pub step: u64,
    pub max_iterations: usize,
}

/// How a solve ended.
#[derive(Clone, Copy, Debug, PartialEq, Eq, Structural)]
pub enum Outcome {
    /// The residual came within the tolerance at a finite temperature.
    Converged,
    /// The iteration cap was reached first.
    Failed,
    /// The intensity ratio was undefined, or the numbers stopped being
    /// numbers.
    Degenerate,
}

/// The last temperature and residual of a solve, and how it ended.
#[derive(Clone, Copy, Debug, PartialEq, Eq, Structural)]
pub struct SolveResult {
    pub te: u64,
    pub residual: u64,
    pub outcome: Outcome,
}

/// The state of a solve.
#[derive(Clone, Copy, Debug, PartialEq, Eq, Structural)]
pub enum SolverState {
    /// The residual is to be evaluated at `te`; `count` evaluations are done.
    Iterating { te: u64, residual: u64, count: usize },
    /// The solve is over.
    Terminal { result: SolveResult },
}

/// What one evaluation at a temperature `te` reports: the residual at `te`,
/// the next guess, and the denominators of the intensity ratio at `te` and
/// at `te + step`, where the second sample for the slope is taken.
#[derive(Clone, Copy, Debug, PartialEq, Eq, Structural)]
pub struct Evaluation {
    pub residual: u64,
    pub next_guess: u64,
    pub denominator: u64,
    pub shifted_denominator: u64,
}

/// Whether a ratio with this denominator is defined: the denominator is a
/// number other than zero.
pub open spec fn ratio_defined(denominator: u64) -> bool {
    !spec_is_nan(denominator) && !spec_is_zero(denominator)
}

/// The state that a temperature, the residual before it and the number of
/// evaluations done amount to. A residual that is no number ends the solve
/// as degenerate; one within the tolerance ends it, as converged where the
/// temperature is finite; failing both, so does a used-up iteration cap.
pub open spec fn settled(te: u64, residual: u64, count: nat, config: SolverConfig) -> SolverState {
    if spec_is_nan(residual) {
        SolverState::Terminal { result: SolveResult { te, residual, outcome: Outcome::Degenerate } }
    } else if spec_at_most(spec_magnitude(residual), config.tolerance) {
        SolverState::Terminal {
            result: SolveResult {
                te,
                residual,
                outcome: if spec_is_finite(te) {
                    Outcome::Converged
                } else {
                    Outcome::Degenerate
                },
            },
        }
    } else if count >= config.max_iterations {
        SolverState::Terminal { result: SolveResult { te, residual, outcome: Outcome::Failed } }
    } else {
        SolverState::Iterating { te, residual, count: count as usize }
    }
}

/// The result of a solve whose right-hand table cannot give a ratio.
pub open spec fn undefined_at_start() -> SolveResult {
    SolveResult { te: ONE, residual: ONE, outcome: Outcome::Degenerate }
}

impl Default for SolverConfig {
    fn default() -> (config: SolverConfig)
        ensures
            config == (SolverConfig {
                tolerance: DEFAULT_TOLERANCE,
                step: DEFAULT_TOLERANCE,
                max_iterations: DEFAULT_MAX_ITERATIONS,
            }),
    {
        SolverConfig {
            tolerance: DEFAULT_TOLERANCE,
            step: DEFAULT_TOLERANCE,
            max_iterations: DEFAULT_MAX_ITERATIONS,
        }
    }
}

impl SolverState {
    /// The state before any evaluation: temperature and residual both `1.0`.
    pub open spec fn initial(config: SolverConfig) -> SolverState {
        settled(ONE, ONE, 0, config)
    }

    /// The state after one more evaluation. A terminal state stays as it is.
    pub open spec fn after(self, evaluation: Evaluation, config: SolverConfig) -> SolverState {
        match self {
            SolverState::Iterating { te, residual, count } => {
                if ratio_defined(evaluation.denominator) && ratio_defined(
                    evaluation.shifted_denominator,
                ) {
                    settled(evaluation.next_guess, evaluation.residual, (count + 1) as nat, config)
                } else {
                    SolverState::Terminal {
                        result: SolveResult { te, residual, outcome: Outcome::Degenerate },
                    }
                }
            },
            SolverState::Terminal { .. } => self,
        }
    }

    /// The state after the evaluations of `trace`, in order.
    pub open spec fn after_all(config: SolverConfig, trace: Seq<Evaluation>) -> SolverState
        decreases trace.len(),
    {
        if trace.len() == 0 {
            SolverState::initial(config)
        } else {
            SolverState::after_all(config, trace.drop_last()).after(trace.last(), config)
        }
    }

    /// Whether the state fits `config`: an iterating state has not used up
    /// the cap, and its residual is a number outside the tolerance. Every
    /// state that `initial` and `after` give does.
    pub open spec fn admissible(self, config: SolverConfig) -> bool {
        match self {
            SolverState::Iterating { te, residual, count } => {
                &&& count < config.max_iterations
                &&& !spec_is_nan(residual)
                &&& !spec_at_most(spec_magnitude(residual), config.tolerance)
            },
            SolverState::Terminal { .. } => true,
        }
    }

    /// The state before any evaluation.
    pub fn start(config: &SolverConfig) -> (state: SolverState)
        ensures
            state == SolverState::initial(*config),
            state.admissible(*config),
    {
        settle(ONE, ONE, 0, config)
    }

    /// Takes in one evaluation, made at the temperature that the state asks
    /// for.
    pub fn advance(self, evaluation: &Evaluation, config: &SolverConfig) -> (state: SolverState)
        ensures
            state == self.after(*evaluation, *config),
            state.admissible(*config),
    {
        match self {
            SolverState::Iterating { te, residual, count } => {
                if is_nan(evaluation.denominator) || is_zero(evaluation.denominator) || is_nan(
                    evaluation.shifted_denominator,
                ) || is_zero(evaluation.shifted_denominator) {
                    SolverState::Terminal {
                        result: SolveResult { te, residual, outcome: Outcome::Degenerate },
                    }
                } else if count < config.max_iterations {
                    settle(evaluation.next_guess, evaluation.residual, count + 1, config)
                } else {
                    // The cap is used up already: one more evaluation or none,
                    // the classification is the same.
                    settle(evaluation.next_guess, evaluation.residual, count, config)
                }
            },
            SolverState::Terminal { result } => SolverState::Terminal { result },
        }
    }
}

/// Classifies a temperature, the residual before it and the number of
/// evaluations done.
pub fn settle(te: u64, residual: u64, count: usize, config: &SolverConfig) -> (state: SolverState)
    ensures
        state == settled(te, residual, count as nat, *config),
        state.admissible(*config),
{
    if is_nan(residual) {
        SolverState::Terminal { result: SolveResult { te, residual, outcome: Outcome::Degenerate } }
    } else if at_most(magnitude(residual), config.tolerance) {
        let outcome = if is_finite(te) {
            Outcome::Converged
        } else {
            Outcome::Degenerate
        };
        SolverState::Terminal { result: SolveResult { te, residual, outcome } }
    } else if count >= config.max_iterations {
        SolverState::Terminal { result: SolveResult { te, residual, outcome: Outcome::Failed } }
    } else {
        SolverState::Iterating { te, residual, count }
    }
}

/// Whether entry `i` of `trace` is an answer at the temperature that the
/// machine asks for after the entries before it. `answers(te, e)` says that
/// `e` is what an evaluation at `te` may report.
pub open spec fn follows_at(
    answers: spec_fn(u64, Evaluation) -> bool,
    config: SolverConfig,
    trace: Seq<Evaluation>,
    i: int,
) -> bool {
    match SolverState::after_all(config, trace.take(i)) {
        SolverState::Iterating { te, .. } => answers(te, trace[i]),
        SolverState::Terminal { .. } => false,
    }
}

/// Whether `trace` is a run of the machine: each entry is an answer at the
/// temperature that the state before it asks for.
pub open spec fn follows(
    answers: spec_fn(u64, Evaluation) -> bool,
    config: SolverConfig,
    trace: Seq<Evaluation>,
) -> bool {
    forall|i: int| 0 <= i < trace.len() ==> #[trigger] follows_at(answers, config, trace, i)
}

/// Whether `result` is the result of a solve. A right-hand table of fewer
/// than two samples integrates to zero at every temperature, so its pair is
/// degenerate before any evaluation. Otherwise the result is the one in
/// which some run of the machine, of at most `max_iterations` evaluations,
/// ends.
pub open spec fn solves(
    answers: spec_fn(u64, Evaluation) -> bool,
    config: SolverConfig,
    right: Seq<Sample>,
    result: SolveResult,
) -> bool {
    if right.len() < 2 {
        result == undefined_at_start()
    } else {
        exists|trace: Seq<Evaluation>|
            {
                &&& follows(answers, config, trace)
                &&& trace.len() <= config.max_iterations
                &&& #[trigger] SolverState::after_all(config, trace) == (SolverState::Terminal {
                    result,
                })
            }
    }
}

/// What `evaluate` may report for a pair of tables and a step, as a
/// relation between the temperature and the evaluation.
pub open spec fn answers_of<
    F: Fn(&CrossSectionTable, &CrossSectionTable, u64, u64) -> Evaluation,
>(evaluate: F, left: &CrossSectionTable, right: &CrossSectionTable, step: u64) -> spec_fn(
    u64,
    Evaluation,
) -> bool {
    |te: u64, evaluation: Evaluation| call_ensures(evaluate, (left, right, te, step), evaluation)
}

/// A run stays a run when an answer at the temperature asked for is added
/// to it.
proof fn lemma_follows_push(
    answers: spec_fn(u64, Evaluation) -> bool,
    config: SolverConfig,
    trace: Seq<Evaluation>,
    evaluation: Evaluation,
)
    requires
        follows(answers, config, trace),
        SolverState::after_all(config, trace) matches SolverState::Iterating { te, .. } && answers(
            te,
            evaluation,
        ),
    ensures
        follows(answers, config, trace.push(evaluation)),
        SolverState::after_all(config, trace.push(evaluation)) == SolverState::after_all(
            config,
            trace,
        ).after(evaluation, config),
{
    let longer = trace.push(evaluation);
    assert(longer.drop_last() =~= trace);
    assert forall|i: int| 0 <= i < longer.len() implies #[trigger] follows_at(
        answers,
        config,
        longer,
        i,
    ) by {
        if i < trace.len() {
            assert(longer.take(i) =~= trace.take(i));
            assert(follows_at(answers, config, trace, i));
        } else {
            assert(longer.take(i) =~= trace);
        }
    }
}

/// Solves for the temperature of one pair of lines. `evaluate` computes,
/// for the two tables, a temperature and the step, the residual, the next
/// guess and the two denominators. It is not called where the right-hand
/// table has fewer than two samples, and at most `max_iterations` times
/// otherwise.
pub fn newton<F: Fn(&CrossSectionTable, &CrossSectionTable, u64, u64) -> Evaluation>(
    config: &SolverConfig,
    left: &CrossSectionTable,
    right: &CrossSectionTable,
    evaluate: &F,
) -> (result: SolveResult)
    requires
        forall|te: u64| call_requires(*evaluate, (left, right, te, config.step)),
    ensures
        solves(answers_of(*evaluate, left, right, config.step), *config, right@, result),
{
    if right.len() < 2 {
        return SolveResult { te: ONE, residual: ONE, outcome: Outcome::Degenerate };
    }
    let ghost answers = answers_of(*evaluate, left, right, config.step);
    let mut state = SolverState::start(config);
    let ghost mut trace: Seq<Evaluation> = Seq::empty();
    loop
        invariant
            right@.len() >= 2,
            answers == answers_of(*evaluate, left, right, config.step),
            forall|te: u64| call_requires(*evaluate, (left, right, te, config.step)),
            state == SolverState::after_all(*config, trace),
            state.admissible(*config),
            follows(answers, *config, trace),
            trace.len() <= config.max_iterations,
            state matches SolverState::Iterating { count, .. } ==> count == trace.len(),
        decreases
            (match state {
                SolverState::Iterating { count, .. } => config.max_iterations - count,
                SolverState::Terminal { .. } => 0,
            }),
            (match state {
                SolverState::Iterating { .. } => 1int,
                SolverState::Terminal { .. } => 0int,
            }),
    {
        match state {
            SolverState::Terminal { result } => {
                return result;
            },
            SolverState::Iterating { te, residual, count } => {
                let evaluation = evaluate(left, right, te, config.step);
                proof {
                    lemma_follows_push(answers, *config, trace, evaluation);
                    trace = trace.push(evaluation);
                }
                state = state.advance(&evaluation, config);
            },
        }
    }
}

/// One pair of lines with the result of its solve.
#[derive(Clone, Copy, Debug, PartialEq, Eq, Structural)]
pub struct SolvedPair {
    pub left_index: usize,
    pub right_index: usize,
    pub result: SolveResult,
}

/// Whether `solved` holds, pair by pair and in order, the numbers of the
/// two lines and a result of solving them.
pub open spec fn solved_in_order<
    F: Fn(&CrossSectionTable, &CrossSectionTable, u64, u64) -> Evaluation,
>(evaluate: F, config: SolverConfig, pairs: Seq<LinePair>, solved: Seq<SolvedPair>) -> bool {
    &&& solved.len() == pairs.len()
    &&& forall|k: int|
        0 <= k < pairs.len() ==> {
            &&& (#[trigger] solved[k]).left_index == pairs[k].left_index
            &&& solved[k].right_index == pairs[k].right_index
            &&& solves(
                answers_of(evaluate, &pairs[k].left, &pairs[k].right, config.step),
                config,
                pairs[k].right@,
                solved[k].result,
            )
        }
}

/// Solves every pair of a list, in order. A pair that fails or is
/// degenerate has its result like any other, and the pairs after it are
/// solved all the same.
pub fn solve_pairs<F: Fn(&CrossSectionTable, &CrossSectionTable, u64, u64) -> Evaluation>(
    config: &SolverConfig,
    pairs: &Vec<LinePair>,
    evaluate: &F,
) -> (solved: Vec<SolvedPair>)
    requires
        forall|left: &CrossSectionTable, right: &CrossSectionTable, te: u64|
            call_requires(*evaluate, (left, right, te, config.step)),
    ensures
        solved_in_order(*evaluate, *config, pairs@, solved@),
{
    let mut solved: Vec<SolvedPair> = Vec::new();
    let mut k: usize = 0;
    while k < pairs.len()
        invariant
            k <= pairs@.len(),
            forall|left: &CrossSectionTable, right: &CrossSectionTable, te: u64|
                call_requires(*evaluate, (left, right, te, config.step)),
            solved_in_order(*evaluate, *config, pairs@.take(k as int), solved@),
        decreases pairs@.len() - k,
    {
        let pair = &pairs[k];
        let result = newton(config, &pair.left, &pair.right, evaluate);
        solved.push(
            SolvedPair { left_index: pair.left_index, right_index: pair.right_index, result },
        );
        k += 1;
    }
    assert(pairs@.take(pairs@.len() as int) =~= pairs@);
    solved
}

/// Solves the pairs of every threshold, threshold by threshold: one list
/// of results for each list of pairs, whatever the outcomes.
pub fn solve_matrix<F: Fn(&CrossSectionTable, &CrossSectionTable, u64, u64) -> Evaluation>(
    config: &SolverConfig,
    matrix: &Vec<Vec<LinePair>>,
    evaluate: &F,
) -> (solved: Vec<Vec<SolvedPair>>)
    requires
        forall|left: &CrossSectionTable, right: &CrossSectionTable, te: u64|
            call_requires(*evaluate, (left, right, te, config.step)),
    ensures
        solved@.len() == matrix@.len(),
        forall|e: int|
            0 <= e < matrix@.len() ==> solved_in_order(
                *evaluate,
                *config,
                matrix@[e]@,
                (#[trigger] solved@[e])@,
            ),
{
    let mut solved: Vec<Vec<SolvedPair>> = Vec::new();
    let mut e: usize = 0;
    while e < matrix.len()
        invariant
            e <= matrix@.len(),
            solved@.len() == e,
            forall|left: &CrossSectionTable, right: &CrossSectionTable, te: u64|
                call_requires(*evaluate, (left, right, te, config.step)),
            forall|d: int|
                0 <= d < e ==> solved_in_order(
                    *evaluate,
                    *config,
                    matrix@[d]@,
                    (#[trigger] solved@[d])@,
                ),
        decreases matrix@.len() - e,
    {
        solved.push(solve_pairs(config, &matrix[e], evaluate));
        e += 1;
    }
    solved
}

/// Whether at each temperature there is only one answer.
pub open spec fn single_valued(answers: spec_fn(u64, Evaluation) -> bool) -> bool {
    forall|te: u64, a: Evaluation, b: Evaluation|
        #[trigger] answers(te, a) && #[trigger] answers(te, b) ==> a == b
}

/// An evaluation that keeps the machine iterating: both ratios are defined,
/// and the residual is a number outside the tolerance.
pub open spec fn inconclusive(evaluation: Evaluation, config: SolverConfig) -> bool {
    &&& ratio_defined(evaluation.denominator)
    &&& ratio_defined(evaluation.shifted_denominator)
    &&& !spec_is_nan(evaluation.residual)
    &&& !spec_at_most(spec_magnitude(evaluation.residual), config.tolerance)
}

/// The machine never runs past the iteration cap: whatever the evaluations
/// report, an iterating state has seen as many of them as its count says,
/// fewer than the cap, and after `max_iterations` of them the state is
/// terminal.
pub proof fn lemma_iteration_is_bounded(config: SolverConfig, trace: Seq<Evaluation>)
    ensures
        SolverState::after_all(config, trace).admissible(config),
        SolverState::after_all(config, trace) matches SolverState::Iterating { count, .. }
            ==> count == trace.len(),
        trace.len() >= config.max_iterations ==> SolverState::after_all(
            config,
            trace,
        ) is Terminal,
    decreases trace.len(),
{
    if trace.len() > 0 {
        lemma_iteration_is_bounded(config, trace.drop_last());
    }
}

/// A solve that never comes within the tolerance fails after exactly
/// `max_iterations` evaluations: the machine is still iterating after every
/// smaller number of them, and after the last it is terminal with the
/// outcome `Failed` and the numbers of that last evaluation.
pub proof fn lemma_fails_after_exactly_max_iterations(config: SolverConfig, trace: Seq<Evaluation>)
    requires
        !spec_at_most(ONE, config.tolerance),
        trace.len() == config.max_iterations,
        forall|i: int| 0 <= i < trace.len() ==> inconclusive(#[trigger] trace[i], config),
    ensures
        forall|i: int|
            0 <= i < trace.len() ==> #[trigger] SolverState::after_all(config, trace.take(i))
                == (SolverState::Iterating {
                te: if i == 0 {
                    ONE
                } else {
                    trace[i - 1].next_guess
                },
                residual: if i == 0 {
                    ONE
                } else {
                    trace[i - 1].residual
                },
                count: i as usize,
            }),
        SolverState::after_all(config, trace) == (SolverState::Terminal {
            result: SolveResult {
                te: if trace.len() == 0 {
                    ONE
                } else {
                    trace.last().next_guess
                },
                residual: if trace.len() == 0 {
                    ONE
                } else {
                    trace.last().residual
                },
                outcome: Outcome::Failed,
            },
        }),
{
    assert forall|i: int| 0 <= i < trace.len() implies #[trigger] SolverState::after_all(
        config,
        trace.take(i),
    ) == (SolverState::Iterating {
        te: if i == 0 {
            ONE
        } else {
            trace[i - 1].next_guess
        },
        residual: if i == 0 {
            ONE
        } else {
            trace[i - 1].residual
        },
        count: i as usize,
    }) by {
        lemma_keeps_iterating(config, trace, i);
    }
    if trace.len() > 0 {
        let last = trace.len() - 1;
        lemma_keeps_iterating(config, trace, last);
        assert(trace.take(last) =~= trace.drop_last());
    }
}

/// The state after the first `i` of a run of inconclusive evaluations, `i`
/// below the cap.
proof fn lemma_keeps_iterating(config: SolverConfig, trace: Seq<Evaluation>, i: int)
    requires
        !spec_at_most(ONE, config.tolerance),
        0 <= i <= trace.len(),
        i < config.max_iterations,
        forall|k: int| 0 <= k < trace.len() ==> inconclusive(#[trigger] trace[k], config),
    ensures
        SolverState::after_all(config, trace.take(i)) == (SolverState::Iterating {
            te: if i == 0 {
                ONE
            } else {
                trace[i - 1].next_guess
            },
            residual: if i == 0 {
                ONE
            } else {
                trace[i - 1].residual
            },
            count: i as usize,
        }),
    decreases i,
{
    if i > 0 {
        lemma_keeps_iterating(config, trace, i - 1);
        assert(trace.take(i).drop_last() =~= trace.take(i - 1));
        assert(trace.take(i).last() == trace[i - 1]);
    }
}

/// With an evaluation that returns one value at each temperature, the
/// result of a solve is determined: two complete runs of the machine on it
/// are the same run, and end in the same state.
pub proof fn lemma_solve_is_deterministic(
    answers: spec_fn(u64, Evaluation) -> bool,
    config: SolverConfig,
    first: Seq<Evaluation>,
    second: Seq<Evaluation>,
)
    requires
        single_valued(answers),
        follows(answers, config, first),
        follows(answers, config, second),
        SolverState::after_all(config, first) is Terminal,
        SolverState::after_all(config, second) is Terminal,
    ensures
        first == second,
        SolverState::after_all(config, first) == SolverState::after_all(config, second),
{
    if first.len() <= second.len() {
        lemma_runs_agree(answers, config, first, second, first.len() as int);
        assert(first.take(first.len() as int) =~= first);
        if first.len() < second.len() {
            assert(follows_at(answers, config, second, first.len() as int));
        } else {
            assert(second.take(second.len() as int) =~= second);
        }
    } else {
        lemma_runs_agree(answers, config, first, second, second.len() as int);
        assert(second.take(second.len() as int) =~= second);
        assert(follows_at(answers, config, first, second.len() as int));
    }
}

/// With an evaluation that returns one value at each temperature, a pair
/// has one result only: solving it twice gives the same temperature, the
/// same residual and the same outcome.
pub proof fn lemma_result_is_unique(
    answers: spec_fn(u64, Evaluation) -> bool,
    config: SolverConfig,
    right: Seq<Sample>,
    first: SolveResult,
    second: SolveResult,
)
    requires
        single_valued(answers),
        solves(answers, config, right, first),
        solves(answers, config, right, second),
    ensures
        first == second,
{
    if right.len() >= 2 {
        let one = choose|trace: Seq<Evaluation>|
            {
                &&& follows(answers, config, trace)
                &&& trace.len() <= config.max_iterations
                &&& #[trigger] SolverState::after_all(config, trace) == (SolverState::Terminal {
                    result: first,
                })
            };
        let other = choose|trace: Seq<Evaluation>|
            {
                &&& follows(answers, config, trace)
                &&& trace.len() <= config.max_iterations
                &&& #[trigger] SolverState::after_all(config, trace) == (SolverState::Terminal {
                    result: second,
                })
            };
        lemma_solve_is_deterministic(answers, config, one, other);
    }
}

/// Two runs of a single-valued evaluation agree as far as both go.
proof fn lemma_runs_agree(
    answers: spec_fn(u64, Evaluation) -> bool,
    config: SolverConfig,
    first: Seq<Evaluation>,
    second: Seq<Evaluation>,
    n: int,
)
    requires
        single_valued(answers),
        follows(answers, config, first),
        follows(answers, config, second),
        0 <= n <= first.len(),
        n <= second.len(),
    ensures
        first.take(n) == second.take(n),
    decreases n,
{
    if n > 0 {
        lemma_runs_agree(answers, config, first, second, n - 1);
        assert(follows_at(answers, config, first, n - 1));
        assert(follows_at(answers, config, second, n - 1));
        assert(first[n - 1] == second[n - 1]);
        assert(first.take(n) =~= first.take(n - 1).push(first[n - 1]));
        assert(second.take(n) =~= second.take(n - 1).push(second[n - 1]));
    } else {
        assert(first.take(0) =~= second.take(0));
    }
}

} // verus!
