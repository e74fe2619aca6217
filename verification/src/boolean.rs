//! Effects of the boolean-domain instructions.
//!
//! Every instruction is a total transformation of the execution state:
//! underflow resolves to a no-op, never to a failure.  The whole effect of a
//! dispatch, on the state and on the random counter, equals the
//! [`boolean_step`] transition function.

use crate::config::Config;
use crate::program::{Boolean, Literal, Program, ProgView};
use crate::rng::{rng_advance, rng_draw, Rng};
use crate::stack::{clamp_depth, seq_dup, seq_pop, seq_rot, seq_shove, seq_swap, seq_yank,
    seq_yank_dup};
use crate::state::{State, StateView};
use crate::value::{clamp_i64, clamp_index, len_to_i64};
use vstd::prelude::*;

verus! {

/// The state and random counter after one boolean instruction.
pub open spec fn boolean_step(i: Boolean, s: StateView, cfg: Config, r: u64) -> (StateView, u64) {
    match i {
        Boolean::Eq => if s.booleans.len() < 2 {
            (s, r)
        } else {
            (
                StateView {
                    booleans: s.booleans.drop_last().drop_last().push(
                        s.booleans[s.booleans.len() - 2] == s.booleans.last(),
                    ),
                    ..s
                },
                r,
            )
        },
        Boolean::And => if s.booleans.len() < 2 {
            (s, r)
        } else {
            (
                StateView {
                    booleans: s.booleans.drop_last().drop_last().push(
                        s.booleans[s.booleans.len() - 2] && s.booleans.last(),
                    ),
                    ..s
                },
                r,
            )
        },
        Boolean::Or => if s.booleans.len() < 2 {
            (s, r)
        } else {
            (
                StateView {
                    booleans: s.booleans.drop_last().drop_last().push(
                        s.booleans[s.booleans.len() - 2] || s.booleans.last(),
                    ),
                    ..s
                },
                r,
            )
        },
        Boolean::Not => if s.booleans.len() == 0 {
            (s, r)
        } else {
            (StateView { booleans: s.booleans.drop_last().push(!s.booleans.last()), ..s }, r)
        },
        Boolean::Define => if s.names.len() == 0 || s.booleans.len() == 0 {
            (s, r)
        } else {
            (
                StateView {
                    names: s.names.drop_last(),
                    booleans: s.booleans.drop_last(),
                    bindings: s.bindings.push(
                        (s.names.last(), ProgView::Literal(Literal::Boolean(s.booleans.last()))),
                    ),
                    ..s
                },
                r,
            )
        },
        Boolean::Dup => (StateView { booleans: seq_dup(s.booleans), ..s }, r),
        Boolean::Flush => (StateView { booleans: Seq::empty(), ..s }, r),
        Boolean::FromFloat => if s.floats.len() == 0 {
            (s, r)
        } else {
            (
                StateView {
                    floats: s.floats.drop_last(),
                    booleans: s.booleans.push(s.floats.last().units != 0),
                    ..s
                },
                r,
            )
        },
        Boolean::FromInteger => if s.integers.len() == 0 {
            (s, r)
        } else {
            (
                StateView {
                    integers: s.integers.drop_last(),
                    booleans: s.booleans.push(s.integers.last() != 0),
                    ..s
                },
                r,
            )
        },
        Boolean::Pop => (StateView { booleans: seq_pop(s.booleans), ..s }, r),
        Boolean::Rand => (
            StateView { booleans: s.booleans.push(rng_draw(r) & 1 == 1), ..s },
            rng_advance(r),
        ),
        Boolean::Rot => (StateView { booleans: seq_rot(s.booleans), ..s }, r),
        Boolean::Shove => if s.integers.len() == 0 || s.booleans.len() == 0 {
            (s, r)
        } else {
            (
                StateView {
                    integers: s.integers.drop_last(),
                    booleans: seq_shove(
                        s.booleans,
                        clamp_depth(s.integers.last() as int, s.booleans.len() as int),
                    ),
                    ..s
                },
                r,
            )
        },
        Boolean::StackDepth => (
            StateView {
                integers: s.integers.push(clamp_i64(s.booleans.len() as int) as i64),
                ..s
            },
            r,
        ),
        Boolean::Swap => (StateView { booleans: seq_swap(s.booleans), ..s }, r),
        Boolean::Yank => if s.integers.len() == 0 || s.booleans.len() == 0 {
            (s, r)
        } else {
            (
                StateView {
                    integers: s.integers.drop_last(),
                    booleans: seq_yank(
                        s.booleans,
                        clamp_depth(s.integers.last() as int, s.booleans.len() as int),
                    ),
                    ..s
                },
                r,
            )
        },
        Boolean::YankDup => if s.integers.len() == 0 || s.booleans.len() == 0 {
            (s, r)
        } else {
            (
                StateView {
                    integers: s.integers.drop_last(),
                    booleans: seq_yank_dup(
                        s.booleans,
                        clamp_depth(s.integers.last() as int, s.booleans.len() as int),
                    ),
                    ..s
                },
                r,
            )
        },
    }
}

impl Boolean {
    /// Applies this instruction's effect, exactly as [`boolean_step`] says.
    #[verifier::loop_isolation(false)]
    pub fn dispatch(self, state: &mut State, cfg: &Config, rng: &mut Rng)
        ensures
            (final(state)@, final(rng).counter) == boolean_step(
                self,
                old(state)@,
                *cfg,
                old(rng).counter,
            ),
    {
        match self {
            Boolean::Eq => {
                if state.boolean_stack.len() >= 2 {
                    let a = state.boolean_stack.pop().unwrap();
                    let b = state.boolean_stack.pop().unwrap();
                    state.boolean_stack.push(b == a);
                }
                proof {
                    assert((state@, rng.counter) =~~= boolean_step(
                        self,
                        old(state)@,
                        *cfg,
                        old(rng).counter,
                    ));
                }
            },
            Boolean::And => {
                if state.boolean_stack.len() >= 2 {
                    let a = state.boolean_stack.pop().unwrap();
                    let b = state.boolean_stack.pop().unwrap();
                    state.boolean_stack.push(b && a);
                }
                proof {
                    assert((state@, rng.counter) =~~= boolean_step(
                        self,
                        old(state)@,
                        *cfg,
                        old(rng).counter,
                    ));
                }
            },
            Boolean::Or => {
                if state.boolean_stack.len() >= 2 {
                    let a = state.boolean_stack.pop().unwrap();
                    let b = state.boolean_stack.pop().unwrap();
                    state.boolean_stack.push(b || a);
                }
                proof {
                    assert((state@, rng.counter) =~~= boolean_step(
                        self,
                        old(state)@,
                        *cfg,
                        old(rng).counter,
                    ));
                }
            },
            Boolean::Not => {
                if state.boolean_stack.len() >= 1 {
                    let a = state.boolean_stack.pop().unwrap();
                    state.boolean_stack.push(!a);
                }
                proof {
                    assert((state@, rng.counter) =~~= boolean_step(
                        self,
                        old(state)@,
                        *cfg,
                        old(rng).counter,
                    ));
                }
            },
            Boolean::Define => {
                if state.name_stack.len() > 0 && state.boolean_stack.len() > 0 {
                    let n = state.name_stack.pop().unwrap();
                    let v = state.boolean_stack.pop().unwrap();
                    state.bind(n, Program::Literal(Literal::Boolean(v)));
                }
                proof {
                    assert((state@, rng.counter) =~~= boolean_step(
                        self,
                        old(state)@,
                        *cfg,
                        old(rng).counter,
                    ));
                }
            },
            Boolean::Dup => {
                let top = match state.boolean_stack.get(0) {
                    Some(v) => Some(*v),
                    None => None,
                };
                if let Some(v) = top {
                    state.boolean_stack.push(v);
                }
                proof {
                    assert((state@, rng.counter) =~~= boolean_step(
                        self,
                        old(state)@,
                        *cfg,
                        old(rng).counter,
                    ));
                }
            },
            Boolean::Flush => {
                state.boolean_stack.flush();
                proof {
                    assert((state@, rng.counter) =~~= boolean_step(
                        self,
                        old(state)@,
                        *cfg,
                        old(rng).counter,
                    ));
                }
            },
            Boolean::FromFloat => {
                if state.float_stack.len() > 0 {
                    let v = state.float_stack.pop().unwrap();
                    state.boolean_stack.push(v.units != 0);
                }
                proof {
                    assert((state@, rng.counter) =~~= boolean_step(
                        self,
                        old(state)@,
                        *cfg,
                        old(rng).counter,
                    ));
                }
            },
            Boolean::FromInteger => {
                if state.integer_stack.len() > 0 {
                    let v = state.integer_stack.pop().unwrap();
                    state.boolean_stack.push(v != 0);
                }
                proof {
                    assert((state@, rng.counter) =~~= boolean_step(
                        self,
                        old(state)@,
                        *cfg,
                        old(rng).counter,
                    ));
                }
            },
            Boolean::Pop => {
                let _ = state.boolean_stack.pop();
                proof {
                    assert((state@, rng.counter) =~~= boolean_step(
                        self,
                        old(state)@,
                        *cfg,
                        old(rng).counter,
                    ));
                }
            },
            Boolean::Rand => {
                let raw = rng.next_u64();
                state.boolean_stack.push(raw & 1 == 1);
                proof {
                    assert((state@, rng.counter) =~~= boolean_step(
                        self,
                        old(state)@,
                        *cfg,
                        old(rng).counter,
                    ));
                }
            },
            Boolean::Rot => {
                state.boolean_stack.rot();
                proof {
                    assert((state@, rng.counter) =~~= boolean_step(
                        self,
                        old(state)@,
                        *cfg,
                        old(rng).counter,
                    ));
                }
            },
            Boolean::Shove => {
                if state.integer_stack.len() > 0 && state.boolean_stack.len() > 0 {
                    let d = state.integer_stack.pop().unwrap();
                    let idx = clamp_index(d, state.boolean_stack.len());
                    state.boolean_stack.shove(idx);
                }
                proof {
                    assert((state@, rng.counter) =~~= boolean_step(
                        self,
                        old(state)@,
                        *cfg,
                        old(rng).counter,
                    ));
                }
            },
            Boolean::StackDepth => {
                let n = len_to_i64(state.boolean_stack.len());
                state.integer_stack.push(n);
                proof {
                    assert((state@, rng.counter) =~~= boolean_step(
                        self,
                        old(state)@,
                        *cfg,
                        old(rng).counter,
                    ));
                }
            },
            Boolean::Swap => {
                state.boolean_stack.swap();
                proof {
                    assert((state@, rng.counter) =~~= boolean_step(
                        self,
                        old(state)@,
                        *cfg,
                        old(rng).counter,
                    ));
                }
            },
            Boolean::Yank => {
                if state.integer_stack.len() > 0 && state.boolean_stack.len() > 0 {
                    let d = state.integer_stack.pop().unwrap();
                    let idx = clamp_index(d, state.boolean_stack.len());
                    state.boolean_stack.yank(idx);
                }
                proof {
                    assert((state@, rng.counter) =~~= boolean_step(
                        self,
                        old(state)@,
                        *cfg,
                        old(rng).counter,
                    ));
                }
            },
            Boolean::YankDup => {
                if state.integer_stack.len() > 0 && state.boolean_stack.len() > 0 {
                    let d = state.integer_stack.pop().unwrap();
                    let idx = clamp_index(d, state.boolean_stack.len());
                    let deep = match state.boolean_stack.get(idx) {
                        Some(v) => Some(*v),
                        None => None,
                    };
                    if let Some(v) = deep {
                        state.boolean_stack.push(v);
                    }
                }
                proof {
                    assert((state@, rng.counter) =~~= boolean_step(
                        self,
                        old(state)@,
                        *cfg,
                        old(rng).counter,
                    ));
                }
            },
        }
    }
}

} // verus!
