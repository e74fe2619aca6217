//! Effects of the name-domain instructions.
//!
//! Names are interned identifiers.  `Quote` arms the quote flag, so that
//! the next bound name literal is pushed onto the name stack instead of
//! expanding to its definition.  The whole effect of a dispatch equals the
//! [`name_step`] transition function.

use crate::config::Config;
use crate::rng::{rng_advance, rng_draw, Rng};
use crate::stack::{clamp_depth, seq_dup, seq_pop, seq_rot, seq_shove, seq_swap, seq_yank,
    seq_yank_dup};
use crate::state::{lemma_bview_seq, State, StateView};
use crate::value::{clamp_i64, clamp_index, len_to_i64};
use vstd::prelude::*;

verus! {

/// The state and random counter after one name instruction.
pub open spec fn name_step(
    i: crate::program::Name,
    s: StateView,
    cfg: Config,
    r: u64,
) -> (StateView, u64) {
    match i {
        crate::program::Name::Eq => if s.names.len() < 2 {
            (s, r)
        } else {
            (
                StateView {
                    names: s.names.drop_last().drop_last(),
                    booleans: s.booleans.push(s.names[s.names.len() - 2] == s.names.last()),
                    ..s
                },
                r,
            )
        },
        crate::program::Name::Dup => (StateView { names: seq_dup(s.names), ..s }, r),
        crate::program::Name::Flush => (StateView { names: Seq::empty(), ..s }, r),
        crate::program::Name::Pop => (StateView { names: seq_pop(s.names), ..s }, r),
        crate::program::Name::Quote => (StateView { name_quote: true, ..s }, r),
        crate::program::Name::Rand => (
            StateView { names: s.names.push(rng_draw(r)), ..s },
            rng_advance(r),
        ),
        crate::program::Name::RandBoundName => if s.bindings.len() == 0 {
            (s, r)
        } else {
            (
                StateView {
                    names: s.names.push(
                        s.bindings[(rng_draw(r) as int) % (s.bindings.len() as int)].0,
                    ),
                    ..s
                },
                rng_advance(r),
            )
        },
        crate::program::Name::Rot => (StateView { names: seq_rot(s.names), ..s }, r),
        crate::program::Name::Shove => if s.integers.len() == 0 || s.names.len() == 0 {
            (s, r)
        } else {
            (
                StateView {
                    integers: s.integers.drop_last(),
                    names: seq_shove(
                        s.names,
                        clamp_depth(s.integers.last() as int, s.names.len() as int),
                    ),
                    ..s
                },
                r,
            )
        },
        crate::program::Name::StackDepth => (
            StateView { integers: s.integers.push(clamp_i64(s.names.len() as int) as i64), ..s },
            r,
        ),
        crate::program::Name::Swap => (StateView { names: seq_swap(s.names), ..s }, r),
        crate::program::Name::Yank => if s.integers.len() == 0 || s.names.len() == 0 {
            (s, r)
        } else {
            (
                StateView {
                    integers: s.integers.drop_last(),
                    names: seq_yank(
                        s.names,
                        clamp_depth(s.integers.last() as int, s.names.len() as int),
                    ),
                    ..s
                },
                r,
            )
        },
        crate::program::Name::YankDup => if s.integers.len() == 0 || s.names.len() == 0 {
            (s, r)
        } else {
            (
                StateView {
                    integers: s.integers.drop_last(),
                    names: seq_yank_dup(
                        s.names,
                        clamp_depth(s.integers.last() as int, s.names.len() as int),
                    ),
                    ..s
                },
                r,
            )
        },
    }
}

impl crate::program::Name {
    /// Applies this instruction's effect, exactly as [`name_step`] says.
    pub fn dispatch(self, state: &mut State, cfg: &Config, rng: &mut Rng)
        ensures
            (final(state)@, final(rng).counter) == name_step(
                self,
                old(state)@,
                *cfg,
                old(rng).counter,
            ),
    {
        match self {
            crate::program::Name::Eq => {
                if state.name_stack.len() >= 2 {
                    let a = state.name_stack.pop().unwrap();
                    let b = state.name_stack.pop().unwrap();
                    state.boolean_stack.push(b == a);
                }
                proof {
                    assert((state@, rng.counter) =~~= name_step(
                        self,
                        old(state)@,
                        *cfg,
                        old(rng).counter,
                    ));
                }
            },
            crate::program::Name::Dup => {
                let top = match state.name_stack.get(0) {
                    Some(v) => Some(*v),
                    None => None,
                };
                if let Some(v) = top {
                    state.name_stack.push(v);
                }
                proof {
                    assert((state@, rng.counter) =~~= name_step(
                        self,
                        old(state)@,
                        *cfg,
                        old(rng).counter,
                    ));
                }
            },
            crate::program::Name::Flush => {
                state.name_stack.flush();
                proof {
                    assert((state@, rng.counter) =~~= name_step(
                        self,
                        old(state)@,
                        *cfg,
                        old(rng).counter,
                    ));
                }
            },
            crate::program::Name::Pop => {
                let _ = state.name_stack.pop();
                proof {
                    assert((state@, rng.counter) =~~= name_step(
                        self,
                        old(state)@,
                        *cfg,
                        old(rng).counter,
                    ));
                }
            },
            crate::program::Name::Quote => {
                state.name_quote = true;
                proof {
                    assert((state@, rng.counter) =~~= name_step(
                        self,
                        old(state)@,
                        *cfg,
                        old(rng).counter,
                    ));
                }
            },
            crate::program::Name::Rand => {
                let raw = rng.next_u64();
                state.name_stack.push(raw);
                proof {
                    assert((state@, rng.counter) =~~= name_step(
                        self,
                        old(state)@,
                        *cfg,
                        old(rng).counter,
                    ));
                }
            },
            crate::program::Name::RandBoundName => {
                let n = state.bindings.len();
                if n > 0 {
                    let raw = rng.next_u64();
                    let idx = (raw % (n as u64)) as usize;
                    proof {
                        lemma_bview_seq(state.bindings@);
                    }
                    let picked = state.bindings[idx].0;
                    state.name_stack.push(picked);
                }
                proof {
                    assert((state@, rng.counter) =~~= name_step(
                        self,
                        old(state)@,
                        *cfg,
                        old(rng).counter,
                    ));
                }
            },
            crate::program::Name::Rot => {
                state.name_stack.rot();
                proof {
                    assert((state@, rng.counter) =~~= name_step(
                        self,
                        old(state)@,
                        *cfg,
                        old(rng).counter,
                    ));
                }
            },
            crate::program::Name::Shove => {
                if state.integer_stack.len() > 0 && state.name_stack.len() > 0 {
                    let d = state.integer_stack.pop().unwrap();
                    let idx = clamp_index(d, state.name_stack.len());
                    state.name_stack.shove(idx);
                }
                proof {
                    assert((state@, rng.counter) =~~= name_step(
                        self,
                        old(state)@,
                        *cfg,
                        old(rng).counter,
                    ));
                }
            },
            crate::program::Name::StackDepth => {
                let n = len_to_i64(state.name_stack.len());
                state.integer_stack.push(n);
                proof {
                    assert((state@, rng.counter) =~~= name_step(
                        self,
                        old(state)@,
                        *cfg,
                        old(rng).counter,
                    ));
                }
            },
            crate::program::Name::Swap => {
                state.name_stack.swap();
                proof {
                    assert((state@, rng.counter) =~~= name_step(
                        self,
                        old(state)@,
                        *cfg,
                        old(rng).counter,
                    ));
                }
            },
            crate::program::Name::Yank => {
                if state.integer_stack.len() > 0 && state.name_stack.len() > 0 {
                    let d = state.integer_stack.pop().unwrap();
                    let idx = clamp_index(d, state.name_stack.len());
                    state.name_stack.yank(idx);
                }
                proof {
                    assert((state@, rng.counter) =~~= name_step(
                        self,
                        old(state)@,
                        *cfg,
                        old(rng).counter,
                    ));
                }
            },
            crate::program::Name::YankDup => {
                if state.integer_stack.len() > 0 && state.name_stack.len() > 0 {
                    let d = state.integer_stack.pop().unwrap();
                    let idx = clamp_index(d, state.name_stack.len());
                    let deep = match state.name_stack.get(idx) {
                        Some(v) => Some(*v),
                        None => None,
                    };
                    if let Some(v) = deep {
                        state.name_stack.push(v);
                    }
                }
                proof {
                    assert((state@, rng.counter) =~~= name_step(
                        self,
                        old(state)@,
                        *cfg,
                        old(rng).counter,
                    ));
                }
            },
        }
    }
}

} // verus!
