//! The bounded evaluator.
//!
//! One step pops the top of the exec stack and dispatches it; a run repeats
//! steps until the exec stack is empty (completion) or the configured step
//! budget is spent (pre-emption).  No other terminal condition exists:
//! instruction-level trouble never halts a run.  The whole run, final state
//! and random counter included, equals the [`run_result`] function of the
//! starting state, the configuration and the seed — which is what makes
//! runs reproducible.

use crate::config::Config;
use crate::dispatch::program_step;
use crate::program::{lemma_pview_drop_last, lemma_pview_seq, Program};
use crate::rng::Rng;
use crate::stack::seq_pop;
use crate::state::{empty_state_view, State, StateView};
use vstd::prelude::*;

verus! {

/// The state and random counter after one evaluation step: the top of the
/// exec stack removed and dispatched; an empty exec stack is left as it is.
pub open spec fn advance_step(s: StateView, cfg: Config, r: u64) -> (StateView, u64) {
    if s.execs.len() == 0 {
        (s, r)
    } else {
        program_step(s.execs.last(), StateView { execs: s.execs.drop_last(), ..s }, cfg, r)
    }
}

/// The state, random counter and step count after at most `fuel` steps:
/// evaluation stops early when the exec stack empties.
pub open spec fn run_steps(s: StateView, cfg: Config, r: u64, fuel: nat) -> (StateView, u64, nat)
    decreases fuel,
{
    if fuel == 0 || s.execs.len() == 0 {
        (s, r, 0)
    } else {
        let stepped = advance_step(s, cfg, r);
        let rest = run_steps(stepped.0, cfg, stepped.1, (fuel - 1) as nat);
        (rest.0, rest.1, rest.2 + 1)
    }
}

/// The step count never exceeds the fuel.
pub proof fn lemma_run_steps_bounded(s: StateView, cfg: Config, r: u64, fuel: nat)
    ensures
        run_steps(s, cfg, r, fuel).2 <= fuel,
    decreases fuel,
{
    if fuel > 0 && s.execs.len() > 0 {
        let stepped = advance_step(s, cfg, r);
        lemma_run_steps_bounded(stepped.0, cfg, stepped.1, (fuel - 1) as nat);
    }
}

/// Everything a whole run produces: the final state (with the top-level
/// code-stack pop applied when configured), the final random counter, the
/// number of dispatch steps taken, and whether the run completed rather
/// than exhausting its budget.
pub open spec fn run_result(s: StateView, cfg: Config, r: u64) -> (StateView, u64, nat, bool) {
    let t = run_steps(s, cfg, r, cfg.eval_push_limit as nat);
    let done = t.0.execs.len() == 0;
    let final_state = if cfg.top_level_pop_code {
        StateView { code: seq_pop(t.0.code), ..t.0 }
    } else {
        t.0
    };
    (final_state, t.1, t.2, done)
}

/// Determinism law: two runs from equal states, equal configurations and
/// equal seeds produce equal final states, counters, step counts and
/// completion reasons.  Every run equals `run_result` of its inputs, so
/// equal inputs leave no room for the outcomes to differ.
pub proof fn lemma_run_deterministic(
    s1: StateView,
    s2: StateView,
    cfg1: Config,
    cfg2: Config,
    r1: u64,
    r2: u64,
)
    requires
        s1 == s2,
        cfg1 == cfg2,
        r1 == r2,
    ensures
        run_result(s1, cfg1, r1) == run_result(s2, cfg2, r2),
{
}

/// Why a run ended.
#[derive(Clone, Copy, PartialEq, Eq, Structural, Debug)]
pub enum RunReason {
    /// The exec stack emptied: the program ran to completion.
    Complete,
    /// The step budget was spent first; the state is whatever was reached.
    BudgetExhausted,
}

/// What a run reports: why it ended and how many dispatch steps it took.
#[derive(Clone, Copy, PartialEq, Eq, Structural, Debug)]
pub struct RunOutcome {
    /// Why the run ended.
    pub reason: RunReason,
    /// How many dispatch steps were performed.
    pub steps: usize,
}

impl State {
    /// Performs one evaluation step, exactly as [`advance_step`] says, and
    /// reports whether there was anything to do.
    pub fn advance(&mut self, cfg: &Config, rng: &mut Rng) -> (stepped: bool)
        requires
            cfg.wf(),
        ensures
            stepped == (old(self)@.execs.len() > 0),
            (final(self)@, final(rng).counter) == advance_step(
                old(self)@,
                *cfg,
                old(rng).counter,
            ),
    {
        proof {
            lemma_pview_seq(self.exec_stack@);
        }
        match self.exec_stack.pop() {
            Some(p) => {
                proof {
                    lemma_pview_drop_last(old(self).exec_stack@);
                    assert(self@ =~~= (StateView {
                        execs: old(self)@.execs.drop_last(),
                        ..old(self)@
                    }));
                    assert(p@ == old(self)@.execs.last());
                }
                p.dispatch(self, cfg, rng);
                true
            },
            None => false,
        }
    }
}

/// The interpreter: an execution state, the immutable run configuration,
/// and the deterministic random source seeded from it.
pub struct Interpreter {
    pub state: State,
    pub config: Config,
    pub rng: Rng,
}

impl Interpreter {
    /// A fresh interpreter: empty state, the given configuration, and the
    /// random source seeded from the configured seed.
    pub fn new(config: Config) -> (r: Interpreter)
        requires
            config.wf(),
        ensures
            r.state@ == empty_state_view(),
            r.config == config,
            r.rng.counter == config.random_seed,
    {
        Interpreter { state: State::new(), config, rng: Rng::seeded(config.random_seed) }
    }

    /// Places a program on the exec stack, to be run next.
    pub fn load(&mut self, program: Program)
        ensures
            final(self)@ == (StateView {
                execs: old(self)@.execs.push(program@),
                ..old(self)@
            }),
            final(self).config == old(self).config,
            final(self).rng == old(self).rng,
    {
        proof {
            lemma_pview_seq(self.state.exec_stack@);
        }
        let ghost before = self.state.exec_stack@;
        self.state.exec_stack.push(program);
        proof {
            crate::program::lemma_pview_push(before, program);
            assert(self@ =~~= (StateView {
                execs: old(self)@.execs.push(program@),
                ..old(self)@
            }));
        }
    }

    /// Drives the evaluator until the exec stack empties or the step budget
    /// is spent, then reads the result as configured.  The run performs at
    /// most `eval_push_limit` dispatch steps, and its whole outcome equals
    /// [`run_result`] of the starting state, the configuration and the
    /// counter.
    #[verifier::loop_isolation(false)]
    pub fn run(&mut self) -> (outcome: RunOutcome)
        requires
            old(self).config.wf(),
        ensures
            outcome.steps <= old(self).config.eval_push_limit,
            final(self).config == old(self).config,
            ({
                let result = run_result(old(self)@, old(self).config, old(self).rng.counter);
                &&& final(self)@ == result.0
                &&& final(self).rng.counter == result.1
                &&& outcome.steps as nat == result.2
                &&& (outcome.reason == RunReason::Complete) == result.3
            }),
    {
        let ghost s0 = self@;
        let ghost r0 = self.rng.counter;
        let ghost cfg = self.config;
        let limit = self.config.eval_push_limit;
        let mut steps: usize = 0;
        proof {
            lemma_pview_seq(self.state.exec_stack@);
        }
        while steps < limit && self.state.exec_stack.len() > 0
            invariant
                steps <= limit,
                self.config == cfg,
                run_steps(s0, cfg, r0, limit as nat) == {
                    let rest = run_steps(
                        self@,
                        cfg,
                        self.rng.counter,
                        (limit - steps) as nat,
                    );
                    (rest.0, rest.1, (rest.2 + steps) as nat)
                },
            decreases limit - steps,
        {
            let ghost pre = self@;
            let ghost pre_r = self.rng.counter;
            let cfg_now = self.config;
            let stepped = self.state.advance(&cfg_now, &mut self.rng);
            steps = steps + 1;
            proof {
                lemma_pview_seq(self.state.exec_stack@);
                assert(run_steps(pre, cfg, pre_r, (limit - (steps - 1)) as nat) == {
                    let rest = run_steps(
                        self@,
                        cfg,
                        self.rng.counter,
                        (limit - steps) as nat,
                    );
                    (rest.0, rest.1, (rest.2 + 1) as nat)
                });
            }
        }
        proof {
            assert(run_steps(self@, cfg, self.rng.counter, (limit - steps) as nat) == (
                self@,
                self.rng.counter,
                0nat,
            ));
            lemma_pview_seq(self.state.exec_stack@);
        }
        let done = self.state.exec_stack.len() == 0;
        if self.config.top_level_pop_code {
            let ghost before = self@;
            proof {
                if self.state.code_stack@.len() > 0 {
                    lemma_pview_drop_last(self.state.code_stack@);
                }
                lemma_pview_seq(self.state.code_stack@);
            }
            let _ = self.state.code_stack.pop();
            proof {
                assert(self@ =~~= (StateView { code: seq_pop(before.code), ..before }));
            }
        }
        RunOutcome {
            reason: if done {
                RunReason::Complete
            } else {
                RunReason::BudgetExhausted
            },
            steps,
        }
    }
}

impl View for Interpreter {
    type V = StateView;

    /// The interpreter's abstract state is its execution state's.
    open spec fn view(&self) -> StateView {
        self.state@
    }
}

} // verus!
