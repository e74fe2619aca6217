//! Effects of the integer-domain instructions.
//!
//! Arithmetic saturates at the representable bounds; division and modulo by
//! zero are no-ops, with the operands left in place.  The whole effect of a
//! dispatch equals the [`integer_step`] transition function.

use crate::config::Config;
use crate::program::{Integer, Literal, Program, ProgView};
use crate::rng::{draw_in_range, reduce_in_range, rng_advance, rng_draw, Rng};
use crate::stack::{clamp_depth, seq_dup, seq_pop, seq_rot, seq_shove, seq_swap, seq_yank,
    seq_yank_dup};
use crate::state::{State, StateView};
use crate::value::{clamp_i64, clamp_index, int_divide, int_minus, int_modulo, int_plus, int_times,
    len_to_i64, tdiv, trem};
use vstd::prelude::*;

verus! {

/// The two integer operands of a binary instruction: the left one is
/// second from the top.
pub open spec fn int_operands(s: StateView) -> (i64, i64)
    recommends
        s.integers.len() >= 2,
{
    (s.integers[s.integers.len() - 2], s.integers.last())
}

/// The integer stack with its two top operands replaced by `v`.
pub open spec fn int_result(s: StateView, v: i64) -> StateView {
    StateView { integers: s.integers.drop_last().drop_last().push(v), ..s }
}

/// The state and random counter after one integer instruction.
pub open spec fn integer_step(i: Integer, s: StateView, cfg: Config, r: u64) -> (StateView, u64) {
    match i {
        Integer::Mod => if s.integers.len() < 2 || s.integers.last() == 0 {
            (s, r)
        } else {
            (
                int_result(
                    s,
                    trem(int_operands(s).0 as int, int_operands(s).1 as int) as i64,
                ),
                r,
            )
        },
        Integer::Times => if s.integers.len() < 2 {
            (s, r)
        } else {
            (int_result(s, clamp_i64(int_operands(s).0 * int_operands(s).1) as i64), r)
        },
        Integer::Plus => if s.integers.len() < 2 {
            (s, r)
        } else {
            (int_result(s, clamp_i64(int_operands(s).0 + int_operands(s).1) as i64), r)
        },
        Integer::Minus => if s.integers.len() < 2 {
            (s, r)
        } else {
            (int_result(s, clamp_i64(int_operands(s).0 - int_operands(s).1) as i64), r)
        },
        Integer::Divide => if s.integers.len() < 2 || s.integers.last() == 0 {
            (s, r)
        } else {
            (
                int_result(
                    s,
                    clamp_i64(tdiv(int_operands(s).0 as int, int_operands(s).1 as int)) as i64,
                ),
                r,
            )
        },
        Integer::LessThan => if s.integers.len() < 2 {
            (s, r)
        } else {
            (
                StateView {
                    integers: s.integers.drop_last().drop_last(),
                    booleans: s.booleans.push(int_operands(s).0 < int_operands(s).1),
                    ..s
                },
                r,
            )
        },
        Integer::Eq => if s.integers.len() < 2 {
            (s, r)
        } else {
            (
                StateView {
                    integers: s.integers.drop_last().drop_last(),
                    booleans: s.booleans.push(int_operands(s).0 == int_operands(s).1),
                    ..s
                },
                r,
            )
        },
        Integer::GreaterThan => if s.integers.len() < 2 {
            (s, r)
        } else {
            (
                StateView {
                    integers: s.integers.drop_last().drop_last(),
                    booleans: s.booleans.push(int_operands(s).0 > int_operands(s).1),
                    ..s
                },
                r,
            )
        },
        Integer::Define => if s.names.len() == 0 || s.integers.len() == 0 {
            (s, r)
        } else {
            (
                StateView {
                    names: s.names.drop_last(),
                    integers: s.integers.drop_last(),
                    bindings: s.bindings.push(
                        (s.names.last(), ProgView::Literal(Literal::Integer(s.integers.last()))),
                    ),
                    ..s
                },
                r,
            )
        },
        Integer::Dup => (StateView { integers: seq_dup(s.integers), ..s }, r),
        Integer::Flush => (StateView { integers: Seq::empty(), ..s }, r),
        Integer::FromBoolean => if s.booleans.len() == 0 {
            (s, r)
        } else {
            (
                StateView {
                    booleans: s.booleans.drop_last(),
                    integers: s.integers.push(
                        if s.booleans.last() {
                            1
                        } else {
                            0
                        },
                    ),
                    ..s
                },
                r,
            )
        },
        Integer::FromFloat => if s.floats.len() == 0 {
            (s, r)
        } else {
            (
                StateView {
                    floats: s.floats.drop_last(),
                    integers: s.integers.push(
                        tdiv(s.floats.last().units as int, crate::value::SCALE as int) as i64,
                    ),
                    ..s
                },
                r,
            )
        },
        Integer::Max => if s.integers.len() < 2 {
            (s, r)
        } else {
            (
                int_result(
                    s,
                    if int_operands(s).0 >= int_operands(s).1 {
                        int_operands(s).0
                    } else {
                        int_operands(s).1
                    },
                ),
                r,
            )
        },
        Integer::Min => if s.integers.len() < 2 {
            (s, r)
        } else {
            (
                int_result(
                    s,
                    if int_operands(s).0 <= int_operands(s).1 {
                        int_operands(s).0
                    } else {
                        int_operands(s).1
                    },
                ),
                r,
            )
        },
        Integer::Pop => (StateView { integers: seq_pop(s.integers), ..s }, r),
        Integer::Rand => (
            StateView {
                integers: s.integers.push(
                    draw_in_range(
                        rng_draw(r),
                        cfg.min_random_integer,
                        cfg.max_random_integer,
                    ) as i64,
                ),
                ..s
            },
            rng_advance(r),
        ),
        Integer::Rot => (StateView { integers: seq_rot(s.integers), ..s }, r),
        Integer::Shove => if s.integers.len() < 2 {
            (s, r)
        } else {
            (
                StateView {
                    integers: seq_shove(
                        s.integers.drop_last(),
                        clamp_depth(s.integers.last() as int, s.integers.len() - 1),
                    ),
                    ..s
                },
                r,
            )
        },
        Integer::StackDepth => (
            StateView {
                integers: s.integers.push(clamp_i64(s.integers.len() as int) as i64),
                ..s
            },
            r,
        ),
        Integer::Swap => (StateView { integers: seq_swap(s.integers), ..s }, r),
        Integer::Yank => if s.integers.len() < 2 {
            (s, r)
        } else {
            (
                StateView {
                    integers: seq_yank(
                        s.integers.drop_last(),
                        clamp_depth(s.integers.last() as int, s.integers.len() - 1),
                    ),
                    ..s
                },
                r,
            )
        },
        Integer::YankDup => if s.integers.len() < 2 {
            (s, r)
        } else {
            (
                StateView {
                    integers: seq_yank_dup(
                        s.integers.drop_last(),
                        clamp_depth(s.integers.last() as int, s.integers.len() - 1),
                    ),
                    ..s
                },
                r,
            )
        },
    }
}

impl Integer {
    /// Applies this instruction's effect, exactly as [`integer_step`] says.
    pub fn dispatch(self, state: &mut State, cfg: &Config, rng: &mut Rng)
        requires
            cfg.wf(),
        ensures
            (final(state)@, final(rng).counter) == integer_step(
                self,
                old(state)@,
                *cfg,
                old(rng).counter,
            ),
    {
        match self {
            Integer::Mod => {
                let top_zero = match state.integer_stack.get(0) {
                    Some(v) => *v == 0,
                    None => true,
                };
                if state.integer_stack.len() >= 2 && !top_zero {
                    let a = state.integer_stack.pop().unwrap();
                    let b = state.integer_stack.pop().unwrap();
                    state.integer_stack.push(int_modulo(b, a));
                }
                proof {
                    assert((state@, rng.counter) =~~= integer_step(
                        self,
                        old(state)@,
                        *cfg,
                        old(rng).counter,
                    ));
                }
            },
            Integer::Times => {
                if state.integer_stack.len() >= 2 {
                    let a = state.integer_stack.pop().unwrap();
                    let b = state.integer_stack.pop().unwrap();
                    state.integer_stack.push(int_times(b, a));
                }
                proof {
                    assert((state@, rng.counter) =~~= integer_step(
                        self,
                        old(state)@,
                        *cfg,
                        old(rng).counter,
                    ));
                }
            },
            Integer::Plus => {
                if state.integer_stack.len() >= 2 {
                    let a = state.integer_stack.pop().unwrap();
                    let b = state.integer_stack.pop().unwrap();
                    state.integer_stack.push(int_plus(b, a));
                }
                proof {
                    assert((state@, rng.counter) =~~= integer_step(
                        self,
                        old(state)@,
                        *cfg,
                        old(rng).counter,
                    ));
                }
            },
            Integer::Minus => {
                if state.integer_stack.len() >= 2 {
                    let a = state.integer_stack.pop().unwrap();
                    let b = state.integer_stack.pop().unwrap();
                    state.integer_stack.push(int_minus(b, a));
                }
                proof {
                    assert((state@, rng.counter) =~~= integer_step(
                        self,
                        old(state)@,
                        *cfg,
                        old(rng).counter,
                    ));
                }
            },
            Integer::Divide => {
                let top_zero = match state.integer_stack.get(0) {
                    Some(v) => *v == 0,
                    None => true,
                };
                if state.integer_stack.len() >= 2 && !top_zero {
                    let a = state.integer_stack.pop().unwrap();
                    let b = state.integer_stack.pop().unwrap();
                    state.integer_stack.push(int_divide(b, a));
                }
                proof {
                    assert((state@, rng.counter) =~~= integer_step(
                        self,
                        old(state)@,
                        *cfg,
                        old(rng).counter,
                    ));
                }
            },
            Integer::LessThan => {
                if state.integer_stack.len() >= 2 {
                    let a = state.integer_stack.pop().unwrap();
                    let b = state.integer_stack.pop().unwrap();
                    state.boolean_stack.push(b < a);
                }
                proof {
                    assert((state@, rng.counter) =~~= integer_step(
                        self,
                        old(state)@,
                        *cfg,
                        old(rng).counter,
                    ));
                }
            },
            Integer::Eq => {
                if state.integer_stack.len() >= 2 {
                    let a = state.integer_stack.pop().unwrap();
                    let b = state.integer_stack.pop().unwrap();
                    state.boolean_stack.push(b == a);
                }
                proof {
                    assert((state@, rng.counter) =~~= integer_step(
                        self,
                        old(state)@,
                        *cfg,
                        old(rng).counter,
                    ));
                }
            },
            Integer::GreaterThan => {
                if state.integer_stack.len() >= 2 {
                    let a = state.integer_stack.pop().unwrap();
                    let b = state.integer_stack.pop().unwrap();
                    state.boolean_stack.push(b > a);
                }
                proof {
                    assert((state@, rng.counter) =~~= integer_step(
                        self,
                        old(state)@,
                        *cfg,
                        old(rng).counter,
                    ));
                }
            },
            Integer::Define => {
                if state.name_stack.len() > 0 && state.integer_stack.len() > 0 {
                    let n = state.name_stack.pop().unwrap();
                    let v = state.integer_stack.pop().unwrap();
                    state.bind(n, Program::Literal(Literal::Integer(v)));
                }
                proof {
                    assert((state@, rng.counter) =~~= integer_step(
                        self,
                        old(state)@,
                        *cfg,
                        old(rng).counter,
                    ));
                }
            },
            Integer::Dup => {
                let top = match state.integer_stack.get(0) {
                    Some(v) => Some(*v),
                    None => None,
                };
                if let Some(v) = top {
                    state.integer_stack.push(v);
                }
                proof {
                    assert((state@, rng.counter) =~~= integer_step(
                        self,
                        old(state)@,
                        *cfg,
                        old(rng).counter,
                    ));
                }
            },
            Integer::Flush => {
                state.integer_stack.flush();
                proof {
                    assert((state@, rng.counter) =~~= integer_step(
                        self,
                        old(state)@,
                        *cfg,
                        old(rng).counter,
                    ));
                }
            },
            Integer::FromBoolean => {
                if state.boolean_stack.len() > 0 {
                    let v = state.boolean_stack.pop().unwrap();
                    state.integer_stack.push(if v { 1 } else { 0 });
                }
                proof {
                    assert((state@, rng.counter) =~~= integer_step(
                        self,
                        old(state)@,
                        *cfg,
                        old(rng).counter,
                    ));
                }
            },
            Integer::FromFloat => {
                if state.float_stack.len() > 0 {
                    let v = state.float_stack.pop().unwrap();
                    state.integer_stack.push(v.truncate_to_integer());
                }
                proof {
                    assert((state@, rng.counter) =~~= integer_step(
                        self,
                        old(state)@,
                        *cfg,
                        old(rng).counter,
                    ));
                }
            },
            Integer::Max => {
                if state.integer_stack.len() >= 2 {
                    let a = state.integer_stack.pop().unwrap();
                    let b = state.integer_stack.pop().unwrap();
                    state.integer_stack.push(if b >= a { b } else { a });
                }
                proof {
                    assert((state@, rng.counter) =~~= integer_step(
                        self,
                        old(state)@,
                        *cfg,
                        old(rng).counter,
                    ));
                }
            },
            Integer::Min => {
                if state.integer_stack.len() >= 2 {
                    let a = state.integer_stack.pop().unwrap();
                    let b = state.integer_stack.pop().unwrap();
                    state.integer_stack.push(if b <= a { b } else { a });
                }
                proof {
                    assert((state@, rng.counter) =~~= integer_step(
                        self,
                        old(state)@,
                        *cfg,
                        old(rng).counter,
                    ));
                }
            },
            Integer::Pop => {
                let _ = state.integer_stack.pop();
                proof {
                    assert((state@, rng.counter) =~~= integer_step(
                        self,
                        old(state)@,
                        *cfg,
                        old(rng).counter,
                    ));
                }
            },
            Integer::Rand => {
                let raw = rng.next_u64();
                let v = reduce_in_range(raw, cfg.min_random_integer, cfg.max_random_integer);
                state.integer_stack.push(v);
                proof {
                    assert((state@, rng.counter) =~~= integer_step(
                        self,
                        old(state)@,
                        *cfg,
                        old(rng).counter,
                    ));
                }
            },
            Integer::Rot => {
                state.integer_stack.rot();
                proof {
                    assert((state@, rng.counter) =~~= integer_step(
                        self,
                        old(state)@,
                        *cfg,
                        old(rng).counter,
                    ));
                }
            },
            Integer::Shove => {
                if state.integer_stack.len() >= 2 {
                    let d = state.integer_stack.pop().unwrap();
                    let idx = clamp_index(d, state.integer_stack.len());
                    state.integer_stack.shove(idx);
                }
                proof {
                    assert((state@, rng.counter) =~~= integer_step(
                        self,
                        old(state)@,
                        *cfg,
                        old(rng).counter,
                    ));
                }
            },
            Integer::StackDepth => {
                let n = len_to_i64(state.integer_stack.len());
                state.integer_stack.push(n);
                proof {
                    assert((state@, rng.counter) =~~= integer_step(
                        self,
                        old(state)@,
                        *cfg,
                        old(rng).counter,
                    ));
                }
            },
            Integer::Swap => {
                state.integer_stack.swap();
                proof {
                    assert((state@, rng.counter) =~~= integer_step(
                        self,
                        old(state)@,
                        *cfg,
                        old(rng).counter,
                    ));
                }
            },
            Integer::Yank => {
                if state.integer_stack.len() >= 2 {
                    let d = state.integer_stack.pop().unwrap();
                    let idx = clamp_index(d, state.integer_stack.len());
                    state.integer_stack.yank(idx);
                }
                proof {
                    assert((state@, rng.counter) =~~= integer_step(
                        self,
                        old(state)@,
                        *cfg,
                        old(rng).counter,
                    ));
                }
            },
            Integer::YankDup => {
                if state.integer_stack.len() >= 2 {
                    let d = state.integer_stack.pop().unwrap();
                    let idx = clamp_index(d, state.integer_stack.len());
                    let deep = match state.integer_stack.get(idx) {
                        Some(v) => Some(*v),
                        None => None,
                    };
                    if let Some(v) = deep {
                        state.integer_stack.push(v);
                    }
                }
                proof {
                    assert((state@, rng.counter) =~~= integer_step(
                        self,
                        old(state)@,
                        *cfg,
                        old(rng).counter,
                    ));
                }
            },
        }
    }
}

} // verus!
