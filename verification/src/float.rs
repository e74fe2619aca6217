//! Effects of the float-domain instructions, over fixed-point reals.
//!
//! Division, modulo and tangent at a zero divisor (or zero cosine) are
//! no-ops, with the operands left in place.  The whole effect of a dispatch
//! equals the [`float_step`] transition function.

use crate::config::Config;
use crate::program::{Float, Literal, Program, ProgView};
use crate::rng::{draw_in_range, reduce_in_range, rng_advance, rng_draw, Rng};
use crate::stack::{clamp_depth, seq_dup, seq_pop, seq_rot, seq_shove, seq_swap, seq_yank,
    seq_yank_dup};
use crate::state::{State, StateView};
use crate::value::{clamp_i64, clamp_index, cos_spec, rdiv_spec, rmul_spec, sin_spec, trem, Real,
    SCALE};
use vstd::prelude::*;

verus! {

/// The two real operands of a binary instruction: the left one is second
/// from the top.
pub open spec fn real_operands(s: StateView) -> (Real, Real)
    recommends
        s.floats.len() >= 2,
{
    (s.floats[s.floats.len() - 2], s.floats.last())
}

/// The float stack with its two top operands replaced by `v`.
pub open spec fn real_result(s: StateView, v: Real) -> StateView {
    StateView { floats: s.floats.drop_last().drop_last().push(v), ..s }
}

/// The state and random counter after one float instruction.
pub open spec fn float_step(i: Float, s: StateView, cfg: Config, r: u64) -> (StateView, u64) {
    match i {
        Float::Mod => if s.floats.len() < 2 || s.floats.last().units == 0 {
            (s, r)
        } else {
            (
                real_result(
                    s,
                    (Real {
                        units: trem(
                            real_operands(s).0.units as int,
                            real_operands(s).1.units as int,
                        ) as i64,
                    }),
                ),
                r,
            )
        },
        Float::Times => if s.floats.len() < 2 {
            (s, r)
        } else {
            (
                real_result(
                    s,
                    (Real {
                        units: rmul_spec(
                            real_operands(s).0.units as int,
                            real_operands(s).1.units as int,
                        ) as i64,
                    }),
                ),
                r,
            )
        },
        Float::Plus => if s.floats.len() < 2 {
            (s, r)
        } else {
            (
                real_result(
                    s,
                    (Real {
                        units: clamp_i64(
                            real_operands(s).0.units + real_operands(s).1.units,
                        ) as i64,
                    }),
                ),
                r,
            )
        },
        Float::Minus => if s.floats.len() < 2 {
            (s, r)
        } else {
            (
                real_result(
                    s,
                    (Real {
                        units: clamp_i64(
                            real_operands(s).0.units - real_operands(s).1.units,
                        ) as i64,
                    }),
                ),
                r,
            )
        },
        Float::Divide => if s.floats.len() < 2 || s.floats.last().units == 0 {
            (s, r)
        } else {
            (
                real_result(
                    s,
                    (Real {
                        units: rdiv_spec(
                            real_operands(s).0.units as int,
                            real_operands(s).1.units as int,
                        ) as i64,
                    }),
                ),
                r,
            )
        },
        Float::LessThan => if s.floats.len() < 2 {
            (s, r)
        } else {
            (
                StateView {
                    floats: s.floats.drop_last().drop_last(),
                    booleans: s.booleans.push(
                        real_operands(s).0.units < real_operands(s).1.units,
                    ),
                    ..s
                },
                r,
            )
        },
        Float::Eq => if s.floats.len() < 2 {
            (s, r)
        } else {
            (
                StateView {
                    floats: s.floats.drop_last().drop_last(),
                    booleans: s.booleans.push(real_operands(s).0 == real_operands(s).1),
                    ..s
                },
                r,
            )
        },
        Float::GreaterThan => if s.floats.len() < 2 {
            (s, r)
        } else {
            (
                StateView {
                    floats: s.floats.drop_last().drop_last(),
                    booleans: s.booleans.push(
                        real_operands(s).0.units > real_operands(s).1.units,
                    ),
                    ..s
                },
                r,
            )
        },
        Float::Cosine => if s.floats.len() == 0 {
            (s, r)
        } else {
            (
                StateView {
                    floats: s.floats.drop_last().push(
                        (Real { units: cos_spec(s.floats.last().units as int) as i64 }),
                    ),
                    ..s
                },
                r,
            )
        },
        Float::Sine => if s.floats.len() == 0 {
            (s, r)
        } else {
            (
                StateView {
                    floats: s.floats.drop_last().push(
                        (Real { units: sin_spec(s.floats.last().units as int) as i64 }),
                    ),
                    ..s
                },
                r,
            )
        },
        Float::Tangent => if s.floats.len() == 0 || cos_spec(s.floats.last().units as int) == 0 {
            (s, r)
        } else {
            (
                StateView {
                    floats: s.floats.drop_last().push(
                        (Real {
                            units: rdiv_spec(
                                sin_spec(s.floats.last().units as int),
                                cos_spec(s.floats.last().units as int),
                            ) as i64,
                        }),
                    ),
                    ..s
                },
                r,
            )
        },
        Float::Define => if s.names.len() == 0 || s.floats.len() == 0 {
            (s, r)
        } else {
            (
                StateView {
                    names: s.names.drop_last(),
                    floats: s.floats.drop_last(),
                    bindings: s.bindings.push(
                        (s.names.last(), ProgView::Literal(Literal::Float(s.floats.last()))),
                    ),
                    ..s
                },
                r,
            )
        },
        Float::Dup => (StateView { floats: seq_dup(s.floats), ..s }, r),
        Float::Flush => (StateView { floats: Seq::empty(), ..s }, r),
        Float::FromBoolean => if s.booleans.len() == 0 {
            (s, r)
        } else {
            (
                StateView {
                    booleans: s.booleans.drop_last(),
                    floats: s.floats.push(
                        (Real {
                            units: if s.booleans.last() {
                                SCALE
                            } else {
                                0
                            },
                        }),
                    ),
                    ..s
                },
                r,
            )
        },
        Float::FromInteger => if s.integers.len() == 0 {
            (s, r)
        } else {
            (
                StateView {
                    integers: s.integers.drop_last(),
                    floats: s.floats.push(
                        (Real { units: clamp_i64(s.integers.last() * (SCALE as int)) as i64 }),
                    ),
                    ..s
                },
                r,
            )
        },
        Float::Max => if s.floats.len() < 2 {
            (s, r)
        } else {
            (
                real_result(
                    s,
                    if real_operands(s).0.units >= real_operands(s).1.units {
                        real_operands(s).0
                    } else {
                        real_operands(s).1
                    },
                ),
                r,
            )
        },
        Float::Min => if s.floats.len() < 2 {
            (s, r)
        } else {
            (
                real_result(
                    s,
                    if real_operands(s).0.units <= real_operands(s).1.units {
                        real_operands(s).0
                    } else {
                        real_operands(s).1
                    },
                ),
                r,
            )
        },
        Float::Pop => (StateView { floats: seq_pop(s.floats), ..s }, r),
        Float::Rand => (
            StateView {
                floats: s.floats.push(
                    (Real {
                        units: draw_in_range(
                            rng_draw(r),
                            cfg.min_random_float.units,
                            cfg.max_random_float.units,
                        ) as i64,
                    }),
                ),
                ..s
            },
            rng_advance(r),
        ),
        Float::Rot => (StateView { floats: seq_rot(s.floats), ..s }, r),
        Float::Shove => if s.integers.len() == 0 || s.floats.len() == 0 {
            (s, r)
        } else {
            (
                StateView {
                    integers: s.integers.drop_last(),
                    floats: seq_shove(
                        s.floats,
                        clamp_depth(s.integers.last() as int, s.floats.len() as int),
                    ),
                    ..s
                },
                r,
            )
        },
        Float::Swap => (StateView { floats: seq_swap(s.floats), ..s }, r),
        Float::Yank => if s.integers.len() == 0 || s.floats.len() == 0 {
            (s, r)
        } else {
            (
                StateView {
                    integers: s.integers.drop_last(),
                    floats: seq_yank(
                        s.floats,
                        clamp_depth(s.integers.last() as int, s.floats.len() as int),
                    ),
                    ..s
                },
                r,
            )
        },
        Float::YankDup => if s.integers.len() == 0 || s.floats.len() == 0 {
            (s, r)
        } else {
            (
                StateView {
                    integers: s.integers.drop_last(),
                    floats: seq_yank_dup(
                        s.floats,
                        clamp_depth(s.integers.last() as int, s.floats.len() as int),
                    ),
                    ..s
                },
                r,
            )
        },
    }
}

impl Float {
    /// Applies this instruction's effect, exactly as [`float_step`] says.
    pub fn dispatch(self, state: &mut State, cfg: &Config, rng: &mut Rng)
        requires
            cfg.wf(),
        ensures
            (final(state)@, final(rng).counter) == float_step(
                self,
                old(state)@,
                *cfg,
                old(rng).counter,
            ),
    {
        match self {
            Float::Mod => {
                let top_zero = match state.float_stack.get(0) {
                    Some(v) => v.units == 0,
                    None => true,
                };
                if state.float_stack.len() >= 2 && !top_zero {
                    let a = state.float_stack.pop().unwrap();
                    let b = state.float_stack.pop().unwrap();
                    state.float_stack.push(b.modulo(&a));
                }
                proof {
                    assert((state@, rng.counter) =~~= float_step(
                        self,
                        old(state)@,
                        *cfg,
                        old(rng).counter,
                    ));
                }
            },
            Float::Times => {
                if state.float_stack.len() >= 2 {
                    let a = state.float_stack.pop().unwrap();
                    let b = state.float_stack.pop().unwrap();
                    state.float_stack.push(b.times(&a));
                }
                proof {
                    assert((state@, rng.counter) =~~= float_step(
                        self,
                        old(state)@,
                        *cfg,
                        old(rng).counter,
                    ));
                }
            },
            Float::Plus => {
                if state.float_stack.len() >= 2 {
                    let a = state.float_stack.pop().unwrap();
                    let b = state.float_stack.pop().unwrap();
                    state.float_stack.push(b.plus(&a));
                }
                proof {
                    assert((state@, rng.counter) =~~= float_step(
                        self,
                        old(state)@,
                        *cfg,
                        old(rng).counter,
                    ));
                }
            },
            Float::Minus => {
                if state.float_stack.len() >= 2 {
                    let a = state.float_stack.pop().unwrap();
                    let b = state.float_stack.pop().unwrap();
                    state.float_stack.push(b.minus(&a));
                }
                proof {
                    assert((state@, rng.counter) =~~= float_step(
                        self,
                        old(state)@,
                        *cfg,
                        old(rng).counter,
                    ));
                }
            },
            Float::Divide => {
                let top_zero = match state.float_stack.get(0) {
                    Some(v) => v.units == 0,
                    None => true,
                };
                if state.float_stack.len() >= 2 && !top_zero {
                    let a = state.float_stack.pop().unwrap();
                    let b = state.float_stack.pop().unwrap();
                    state.float_stack.push(b.divide(&a));
                }
                proof {
                    assert((state@, rng.counter) =~~= float_step(
                        self,
                        old(state)@,
                        *cfg,
                        old(rng).counter,
                    ));
                }
            },
            Float::LessThan => {
                if state.float_stack.len() >= 2 {
                    let a = state.float_stack.pop().unwrap();
                    let b = state.float_stack.pop().unwrap();
                    state.boolean_stack.push(b.units < a.units);
                }
                proof {
                    assert((state@, rng.counter) =~~= float_step(
                        self,
                        old(state)@,
                        *cfg,
                        old(rng).counter,
                    ));
                }
            },
            Float::Eq => {
                if state.float_stack.len() >= 2 {
                    let a = state.float_stack.pop().unwrap();
                    let b = state.float_stack.pop().unwrap();
                    state.boolean_stack.push(b == a);
                }
                proof {
                    assert((state@, rng.counter) =~~= float_step(
                        self,
                        old(state)@,
                        *cfg,
                        old(rng).counter,
                    ));
                }
            },
            Float::GreaterThan => {
                if state.float_stack.len() >= 2 {
                    let a = state.float_stack.pop().unwrap();
                    let b = state.float_stack.pop().unwrap();
                    state.boolean_stack.push(b.units > a.units);
                }
                proof {
                    assert((state@, rng.counter) =~~= float_step(
                        self,
                        old(state)@,
                        *cfg,
                        old(rng).counter,
                    ));
                }
            },
            Float::Cosine => {
                if state.float_stack.len() > 0 {
                    let v = state.float_stack.pop().unwrap();
                    state.float_stack.push(v.cosine());
                }
                proof {
                    assert((state@, rng.counter) =~~= float_step(
                        self,
                        old(state)@,
                        *cfg,
                        old(rng).counter,
                    ));
                }
            },
            Float::Sine => {
                if state.float_stack.len() > 0 {
                    let v = state.float_stack.pop().unwrap();
                    state.float_stack.push(v.sine());
                }
                proof {
                    assert((state@, rng.counter) =~~= float_step(
                        self,
                        old(state)@,
                        *cfg,
                        old(rng).counter,
                    ));
                }
            },
            Float::Tangent => {
                if state.float_stack.len() > 0 {
                    let c = match state.float_stack.get(0) {
                        Some(v) => v.cosine(),
                        None => Real { units: 0 },
                    };
                    if c.units != 0 {
                        let v = state.float_stack.pop().unwrap();
                        let sv = v.sine();
                        state.float_stack.push(sv.divide(&c));
                    }
                }
                proof {
                    assert((state@, rng.counter) =~~= float_step(
                        self,
                        old(state)@,
                        *cfg,
                        old(rng).counter,
                    ));
                }
            },
            Float::Define => {
                if state.name_stack.len() > 0 && state.float_stack.len() > 0 {
                    let n = state.name_stack.pop().unwrap();
                    let v = state.float_stack.pop().unwrap();
                    state.bind(n, Program::Literal(Literal::Float(v)));
                }
                proof {
                    assert((state@, rng.counter) =~~= float_step(
                        self,
                        old(state)@,
                        *cfg,
                        old(rng).counter,
                    ));
                }
            },
            Float::Dup => {
                let top = match state.float_stack.get(0) {
                    Some(v) => Some(*v),
                    None => None,
                };
                if let Some(v) = top {
                    state.float_stack.push(v);
                }
                proof {
                    assert((state@, rng.counter) =~~= float_step(
                        self,
                        old(state)@,
                        *cfg,
                        old(rng).counter,
                    ));
                }
            },
            Float::Flush => {
                state.float_stack.flush();
                proof {
                    assert((state@, rng.counter) =~~= float_step(
                        self,
                        old(state)@,
                        *cfg,
                        old(rng).counter,
                    ));
                }
            },
            Float::FromBoolean => {
                if state.boolean_stack.len() > 0 {
                    let v = state.boolean_stack.pop().unwrap();
                    state.float_stack.push(Real::from_boolean(v));
                }
                proof {
                    assert((state@, rng.counter) =~~= float_step(
                        self,
                        old(state)@,
                        *cfg,
                        old(rng).counter,
                    ));
                }
            },
            Float::FromInteger => {
                if state.integer_stack.len() > 0 {
                    let v = state.integer_stack.pop().unwrap();
                    state.float_stack.push(Real::from_integer(v));
                }
                proof {
                    assert((state@, rng.counter) =~~= float_step(
                        self,
                        old(state)@,
                        *cfg,
                        old(rng).counter,
                    ));
                }
            },
            Float::Max => {
                if state.float_stack.len() >= 2 {
                    let a = state.float_stack.pop().unwrap();
                    let b = state.float_stack.pop().unwrap();
                    state.float_stack.push(b.max_of(&a));
                }
                proof {
                    assert((state@, rng.counter) =~~= float_step(
                        self,
                        old(state)@,
                        *cfg,
                        old(rng).counter,
                    ));
                }
            },
            Float::Min => {
                if state.float_stack.len() >= 2 {
                    let a = state.float_stack.pop().unwrap();
                    let b = state.float_stack.pop().unwrap();
                    state.float_stack.push(b.min_of(&a));
                }
                proof {
                    assert((state@, rng.counter) =~~= float_step(
                        self,
                        old(state)@,
                        *cfg,
                        old(rng).counter,
                    ));
                }
            },
            Float::Pop => {
                let _ = state.float_stack.pop();
                proof {
                    assert((state@, rng.counter) =~~= float_step(
                        self,
                        old(state)@,
                        *cfg,
                        old(rng).counter,
                    ));
                }
            },
            Float::Rand => {
                let raw = rng.next_u64();
                let v = reduce_in_range(
                    raw,
                    cfg.min_random_float.units,
                    cfg.max_random_float.units,
                );
                state.float_stack.push(Real::from_units(v));
                proof {
                    assert((state@, rng.counter) =~~= float_step(
                        self,
                        old(state)@,
                        *cfg,
                        old(rng).counter,
                    ));
                }
            },
            Float::Rot => {
                state.float_stack.rot();
                proof {
                    assert((state@, rng.counter) =~~= float_step(
                        self,
                        old(state)@,
                        *cfg,
                        old(rng).counter,
                    ));
                }
            },
            Float::Shove => {
                if state.integer_stack.len() > 0 && state.float_stack.len() > 0 {
                    let d = state.integer_stack.pop().unwrap();
                    let idx = clamp_index(d, state.float_stack.len());
                    state.float_stack.shove(idx);
                }
                proof {
                    assert((state@, rng.counter) =~~= float_step(
                        self,
                        old(state)@,
                        *cfg,
                        old(rng).counter,
                    ));
                }
            },
            Float::Swap => {
                state.float_stack.swap();
                proof {
                    assert((state@, rng.counter) =~~= float_step(
                        self,
                        old(state)@,
                        *cfg,
                        old(rng).counter,
                    ));
                }
            },
            Float::Yank => {
                if state.integer_stack.len() > 0 && state.float_stack.len() > 0 {
                    let d = state.integer_stack.pop().unwrap();
                    let idx = clamp_index(d, state.float_stack.len());
                    state.float_stack.yank(idx);
                }
                proof {
                    assert((state@, rng.counter) =~~= float_step(
                        self,
                        old(state)@,
                        *cfg,
                        old(rng).counter,
                    ));
                }
            },
            Float::YankDup => {
                if state.integer_stack.len() > 0 && state.float_stack.len() > 0 {
                    let d = state.integer_stack.pop().unwrap();
                    let idx = clamp_index(d, state.float_stack.len());
                    let deep = match state.float_stack.get(idx) {
                        Some(v) => Some(*v),
                        None => None,
                    };
                    if let Some(v) = deep {
                        state.float_stack.push(v);
                    }
                }
                proof {
                    assert((state@, rng.counter) =~~= float_step(
                        self,
                        old(state)@,
                        *cfg,
                        old(rng).counter,
                    ));
                }
            },
        }
    }
}

} // verus!
