//! Dispatch of one program node against the execution state.
//!
//! A literal pushes its value onto the stack of its domain — except a bound
//! name, which expands to its definition on the exec stack unless the quote
//! flag is armed.  An instruction applies its domain's effect.  A list is
//! expanded: its children go onto the exec stack in reverse order, so the
//! first child is executed next (depth-first, left to right).

use crate::boolean::boolean_step;
use crate::code::code_step;
use crate::config::Config;
use crate::exec_ops::exec_step;
use crate::float::float_step;
use crate::integer::integer_step;
use crate::name::name_step;
use crate::program::{lemma_pview_push, lemma_pview_seq, pview, pview_seq, Instruction, Literal,
    Program, ProgView};
use crate::rng::Rng;
use crate::state::{lookup, State, StateView};
use vstd::prelude::*;

verus! {

/// The state after one literal is dispatched.
pub open spec fn literal_step(l: Literal, s: StateView) -> StateView {
    match l {
        Literal::Boolean(b) => StateView { booleans: s.booleans.push(b), ..s },
        Literal::Float(f) => StateView { floats: s.floats.push(f), ..s },
        Literal::Integer(i) => StateView { integers: s.integers.push(i), ..s },
        Literal::Name(n) => if s.name_quote {
            StateView { names: s.names.push(n), name_quote: false, ..s }
        } else {
            match lookup(s.bindings, n) {
                Some(d) => StateView { execs: s.execs.push(d), ..s },
                None => StateView { names: s.names.push(n), ..s },
            }
        },
    }
}

/// The state and random counter after one instruction is dispatched.
pub open spec fn instruction_step(i: Instruction, s: StateView, cfg: Config, r: u64) -> (
    StateView,
    u64,
) {
    match i {
        Instruction::Boolean(b) => boolean_step(b, s, cfg, r),
        Instruction::Code(c) => code_step(c, s, cfg, r),
        Instruction::Exec(e) => exec_step(e, s, cfg, r),
        Instruction::Float(f) => float_step(f, s, cfg, r),
        Instruction::Integer(n) => integer_step(n, s, cfg, r),
        Instruction::Name(n) => name_step(n, s, cfg, r),
    }
}

/// The state and random counter after one program node is dispatched.
pub open spec fn program_step(p: ProgView, s: StateView, cfg: Config, r: u64) -> (StateView, u64) {
    match p {
        ProgView::Instruction(i) => instruction_step(i, s, cfg, r),
        ProgView::Literal(l) => (literal_step(l, s), r),
        ProgView::List(cs) => (StateView { execs: s.execs + cs.reverse(), ..s }, r),
    }
}

impl Literal {
    /// Pushes this literal's value, exactly as [`literal_step`] says.
    pub fn dispatch(self, state: &mut State)
        ensures
            final(state)@ == literal_step(self, old(state)@),
    {
        match self {
            Literal::Boolean(b) => {
                state.boolean_stack.push(b);
                proof {
                    assert(state@ =~~= literal_step(self, old(state)@));
                }
            },
            Literal::Float(f) => {
                state.float_stack.push(f);
                proof {
                    assert(state@ =~~= literal_step(self, old(state)@));
                }
            },
            Literal::Integer(i) => {
                state.integer_stack.push(i);
                proof {
                    assert(state@ =~~= literal_step(self, old(state)@));
                }
            },
            Literal::Name(n) => {
                if state.name_quote {
                    state.name_stack.push(n);
                    state.name_quote = false;
                    proof {
                        assert(state@ =~~= literal_step(self, old(state)@));
                    }
                } else {
                    match state.lookup_binding(n) {
                        Some(d) => {
                            state.exec_stack.push(d);
                            proof {
                                lemma_pview_push(old(state).exec_stack@, d);
                                assert(state@ =~~= literal_step(self, old(state)@));
                            }
                        },
                        None => {
                            state.name_stack.push(n);
                            proof {
                                assert(state@ =~~= literal_step(self, old(state)@));
                            }
                        },
                    }
                }
            },
        }
    }
}

impl Instruction {
    /// Applies this instruction's effect, exactly as [`instruction_step`]
    /// says.
    pub fn dispatch(self, state: &mut State, cfg: &Config, rng: &mut Rng)
        requires
            cfg.wf(),
        ensures
            (final(state)@, final(rng).counter) == instruction_step(
                self,
                old(state)@,
                *cfg,
                old(rng).counter,
            ),
    {
        match self {
            Instruction::Boolean(b) => b.dispatch(state, cfg, rng),
            Instruction::Code(c) => c.dispatch(state, cfg, rng),
            Instruction::Exec(e) => e.dispatch(state, cfg, rng),
            Instruction::Float(f) => f.dispatch(state, cfg, rng),
            Instruction::Integer(n) => n.dispatch(state, cfg, rng),
            Instruction::Name(n) => n.dispatch(state, cfg, rng),
        }
    }
}

impl Program {
    /// Dispatches this node against the state, exactly as [`program_step`]
    /// says: a literal is pushed, an instruction applied, and a list
    /// expanded onto the exec stack in reverse order.
    #[verifier::loop_isolation(false)]
    pub fn dispatch(self, state: &mut State, cfg: &Config, rng: &mut Rng)
        requires
            cfg.wf(),
        ensures
            (final(state)@, final(rng).counter) == program_step(
                self@,
                old(state)@,
                *cfg,
                old(rng).counter,
            ),
    {
        match self {
            Program::Instruction(i) => {
                i.dispatch(state, cfg, rng);
            },
            Program::Literal(l) => {
                l.dispatch(state);
            },
            Program::List(cs) => {
                let ghost cs0 = pview_seq(cs@);
                let ghost execs0 = old(state)@.execs;
                proof {
                    lemma_pview_seq(cs@);
                    assert(execs0 + cs0.skip(cs@.len() as int).reverse() =~= execs0);
                }
                let mut rest = cs;
                while rest.len() > 0
                    invariant
                        rest@.len() <= cs0.len(),
                        pview_seq(rest@) == cs0.take(rest@.len() as int),
                        state.boolean_stack@ == old(state).boolean_stack@,
                        state.code_stack@ == old(state).code_stack@,
                        state.float_stack@ == old(state).float_stack@,
                        state.integer_stack@ == old(state).integer_stack@,
                        state.name_stack@ == old(state).name_stack@,
                        state.bindings@ == old(state).bindings@,
                        state.name_quote == old(state).name_quote,
                        pview_seq(state.exec_stack@) == execs0 + cs0.skip(
                            rest@.len() as int,
                        ).reverse(),
                    decreases rest@.len(),
                {
                    let ghost k = rest@.len() as int;
                    proof {
                        lemma_pview_seq(rest@);
                        assert(pview(rest@.last()) == cs0[k - 1]);
                    }
                    let p = rest.pop().unwrap();
                    proof {
                        lemma_pview_seq(rest@);
                        assert(pview_seq(rest@) =~= cs0.take(k - 1));
                    }
                    let ghost before = state.exec_stack@;
                    state.exec_stack.push(p);
                    proof {
                        lemma_pview_push(before, p);
                        assert(pview_seq(state.exec_stack@) =~= execs0 + cs0.skip(
                            k - 1,
                        ).reverse());
                    }
                }
                proof {
                    assert(cs0.skip(0).reverse() =~= cs0.reverse());
                    assert((state@, rng.counter) =~~= program_step(
                        ProgView::List(cs0),
                        old(state)@,
                        *cfg,
                        old(rng).counter,
                    ));
                }
            },
        }
    }
}

} // verus!
