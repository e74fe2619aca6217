//! Effects of the exec-domain instructions.
//!
//! The exec stack is the control stack, so these instructions manipulate
//! pending computation: the combinators K, S and Y implement projection,
//! composition and recursion purely through stack rewriting, and the
//! iteration instructions expand to a re-pushed continuation list, so that
//! unbounded loops remain subject to the evaluator's step budget.  The whole
//! effect of a dispatch equals the [`exec_step`] transition function.

use crate::config::Config;
use crate::program::{lemma_pview_drop_last, lemma_pview_push, lemma_pview_seq,
    lemma_pview_stack_ops, pview, pview_seq, Exec, Instruction, Integer, Literal, Program,
    ProgView};
use crate::rng::Rng;
use crate::stack::{clamp_depth, seq_dup, seq_pop, seq_rot, seq_shove, seq_swap, seq_yank,
    seq_yank_dup};
use crate::state::{State, StateView};
use crate::value::{clamp_i64, clamp_index, len_to_i64};
use vstd::prelude::*;

verus! {

/// The continuation list that a counting loop expands to: it re-pushes the
/// loop state, the ranging instruction, and the body.
pub open spec fn range_continuation(next: i64, dest: i64, body: ProgView) -> ProgView {
    ProgView::List(
        seq![
            ProgView::Literal(Literal::Integer(next)),
            ProgView::Literal(Literal::Integer(dest)),
            ProgView::Instruction(Instruction::Exec(Exec::DoStarRange)),
            body,
        ],
    )
}

/// The state and random counter after one exec instruction.
pub open spec fn exec_step(i: Exec, s: StateView, cfg: Config, r: u64) -> (StateView, u64) {
    match i {
        Exec::Eq => if s.execs.len() < 2 {
            (s, r)
        } else {
            (
                StateView {
                    execs: s.execs.drop_last().drop_last(),
                    booleans: s.booleans.push(s.execs[s.execs.len() - 2] == s.execs.last()),
                    ..s
                },
                r,
            )
        },
        Exec::Define => if s.names.len() == 0 || s.execs.len() == 0 {
            (s, r)
        } else {
            (
                StateView {
                    names: s.names.drop_last(),
                    execs: s.execs.drop_last(),
                    bindings: s.bindings.push((s.names.last(), s.execs.last())),
                    ..s
                },
                r,
            )
        },
        Exec::DoStarCount => if s.integers.len() == 0 || s.execs.len() == 0 || s.integers.last()
            < 1 {
            (s, r)
        } else {
            (
                StateView {
                    integers: s.integers.drop_last(),
                    execs: s.execs.drop_last().push(
                        range_continuation(0, (s.integers.last() - 1) as i64, s.execs.last()),
                    ),
                    ..s
                },
                r,
            )
        },
        Exec::DoStarRange => if s.integers.len() < 2 || s.execs.len() == 0 {
            (s, r)
        } else {
            let body = s.execs.last();
            let dest = s.integers.last();
            let cur = s.integers[s.integers.len() - 2];
            let ints = s.integers.drop_last().drop_last().push(cur);
            if cur == dest {
                (StateView { integers: ints, ..s }, r)
            } else {
                let next: i64 = if cur < dest {
                    (cur + 1) as i64
                } else {
                    (cur - 1) as i64
                };
                (
                    StateView {
                        integers: ints,
                        execs: s.execs.drop_last().push(range_continuation(next, dest, body)).push(
                            body,
                        ),
                        ..s
                    },
                    r,
                )
            }
        },
        Exec::DoStarTimes => if s.integers.len() == 0 || s.execs.len() == 0 || s.integers.last()
            < 1 {
            (s, r)
        } else {
            (
                StateView {
                    integers: s.integers.drop_last(),
                    execs: s.execs.drop_last().push(
                        range_continuation(
                            0,
                            (s.integers.last() - 1) as i64,
                            ProgView::List(
                                seq![
                                    ProgView::Instruction(Instruction::Integer(Integer::Pop)),
                                    s.execs.last(),
                                ],
                            ),
                        ),
                    ),
                    ..s
                },
                r,
            )
        },
        Exec::Dup => (StateView { execs: seq_dup(s.execs), ..s }, r),
        Exec::Flush => (StateView { execs: Seq::empty(), ..s }, r),
        Exec::If => if s.booleans.len() == 0 || s.execs.len() < 2 {
            (s, r)
        } else {
            (
                StateView {
                    booleans: s.booleans.drop_last(),
                    execs: s.execs.drop_last().drop_last().push(
                        if s.booleans.last() {
                            s.execs.last()
                        } else {
                            s.execs[s.execs.len() - 2]
                        },
                    ),
                    ..s
                },
                r,
            )
        },
        Exec::K => if s.execs.len() < 2 {
            (s, r)
        } else {
            (
                StateView { execs: s.execs.drop_last().drop_last().push(s.execs.last()), ..s },
                r,
            )
        },
        Exec::Pop => (StateView { execs: seq_pop(s.execs), ..s }, r),
        Exec::Rot => (StateView { execs: seq_rot(s.execs), ..s }, r),
        Exec::S => if s.execs.len() < 3 {
            (s, r)
        } else {
            let x = s.execs.last();
            let y = s.execs[s.execs.len() - 2];
            let z = s.execs[s.execs.len() - 3];
            (
                StateView {
                    execs: s.execs.drop_last().drop_last().drop_last().push(
                        ProgView::List(seq![y, z]),
                    ).push(z).push(x),
                    ..s
                },
                r,
            )
        },
        Exec::Shove => if s.integers.len() == 0 || s.execs.len() == 0 {
            (s, r)
        } else {
            (
                StateView {
                    integers: s.integers.drop_last(),
                    execs: seq_shove(
                        s.execs,
                        clamp_depth(s.integers.last() as int, s.execs.len() as int),
                    ),
                    ..s
                },
                r,
            )
        },
        Exec::StackDepth => (
            StateView { integers: s.integers.push(clamp_i64(s.execs.len() as int) as i64), ..s },
            r,
        ),
        Exec::Swap => (StateView { execs: seq_swap(s.execs), ..s }, r),
        Exec::Y => if s.execs.len() == 0 {
            (s, r)
        } else {
            (
                StateView {
                    execs: s.execs.drop_last().push(
                        ProgView::List(
                            seq![
                                ProgView::Instruction(Instruction::Exec(Exec::Y)),
                                s.execs.last(),
                            ],
                        ),
                    ).push(s.execs.last()),
                    ..s
                },
                r,
            )
        },
        Exec::Yank => if s.integers.len() == 0 || s.execs.len() == 0 {
            (s, r)
        } else {
            (
                StateView {
                    integers: s.integers.drop_last(),
                    execs: seq_yank(
                        s.execs,
                        clamp_depth(s.integers.last() as int, s.execs.len() as int),
                    ),
                    ..s
                },
                r,
            )
        },
        Exec::YankDup => if s.integers.len() == 0 || s.execs.len() == 0 {
            (s, r)
        } else {
            (
                StateView {
                    integers: s.integers.drop_last(),
                    execs: seq_yank_dup(
                        s.execs,
                        clamp_depth(s.integers.last() as int, s.execs.len() as int),
                    ),
                    ..s
                },
                r,
            )
        },
    }
}

impl Exec {
    /// Applies this instruction's effect, exactly as [`exec_step`] says.
    #[verifier::rlimit(100)]
    pub fn dispatch(self, state: &mut State, cfg: &Config, rng: &mut Rng)
        ensures
            (final(state)@, final(rng).counter) == exec_step(
                self,
                old(state)@,
                *cfg,
                old(rng).counter,
            ),
    {
        proof {
            lemma_pview_seq(state.exec_stack@);
        }
        match self {
            Exec::Eq => {
                let deep: bool = state.exec_stack.len() >= 2;
                if deep {
                    let a = state.exec_stack.pop().unwrap();
                    let b = state.exec_stack.pop().unwrap();
                    proof {
                        lemma_pview_drop_last(old(state).exec_stack@);
                        lemma_pview_drop_last(old(state).exec_stack@.drop_last());
                        lemma_pview_seq(old(state).exec_stack@);
                        lemma_pview_seq(state.exec_stack@);
                        assert(pview_seq(state.exec_stack@) =~= pview_seq(
                            old(state).exec_stack@,
                        ).drop_last().drop_last());
                        assert(pview(a) == old(state)@.execs.last());
                        assert(pview(b) == old(state)@.execs[old(state)@.execs.len() - 2]);
                    }
                    let same = crate::program::tree_eq(&b, &a);
                    state.boolean_stack.push(same);
                    proof {
                        assert(same == (old(state)@.execs[old(state)@.execs.len() - 2] == old(
                            state,
                        )@.execs.last()));
                        assert(state@.booleans =~= old(state)@.booleans.push(
                            old(state)@.execs[old(state)@.execs.len() - 2] == old(
                                state,
                            )@.execs.last(),
                        ));
                        assert((state@, rng.counter) =~~= exec_step(
                            self,
                            old(state)@,
                            *cfg,
                            old(rng).counter,
                        ));
                    }
                } else {
                    proof {
                        assert((state@, rng.counter) =~~= exec_step(
                            self,
                            old(state)@,
                            *cfg,
                            old(rng).counter,
                        ));
                    }
                }
            },
            Exec::Define => {
                if state.name_stack.len() > 0 && state.exec_stack.len() > 0 {
                    let n = state.name_stack.pop().unwrap();
                    let p = state.exec_stack.pop().unwrap();
                    proof {
                        lemma_pview_drop_last(old(state).exec_stack@);
                    }
                    state.bind(n, p);
                }
                proof {
                    assert((state@, rng.counter) =~~= exec_step(
                        self,
                        old(state)@,
                        *cfg,
                        old(rng).counter,
                    ));
                }
            },
            Exec::DoStarCount => {
                let positive = match state.integer_stack.get(0) {
                    Some(v) => *v >= 1,
                    None => false,
                };
                if positive && state.exec_stack.len() > 0 {
                    let count = state.integer_stack.pop().unwrap();
                    let body = state.exec_stack.pop().unwrap();
                    let mut l: Vec<Program> = Vec::new();
                    l.push(Program::Literal(Literal::Integer(0)));
                    l.push(Program::Literal(Literal::Integer(count - 1)));
                    l.push(Program::Instruction(Instruction::Exec(Exec::DoStarRange)));
                    l.push(body);
                    proof {
                        lemma_pview_seq(l@);
                        lemma_pview_drop_last(old(state).exec_stack@);
                        assert(pview_seq(l@) =~= range_continuation(
                            0,
                            (count - 1) as i64,
                            pview(l@[3]),
                        )->List_0);
                    }
                    let cont = Program::List(l);
                    state.exec_stack.push(cont);
                    proof {
                        lemma_pview_push(old(state).exec_stack@.drop_last(), cont);
                    }
                }
                proof {
                    assert((state@, rng.counter) =~~= exec_step(
                        self,
                        old(state)@,
                        *cfg,
                        old(rng).counter,
                    ));
                }
            },
            Exec::DoStarRange => {
                if state.integer_stack.len() >= 2 && state.exec_stack.len() > 0 {
                    let body = state.exec_stack.pop().unwrap();
                    let dest = state.integer_stack.pop().unwrap();
                    let cur = state.integer_stack.pop().unwrap();
                    state.integer_stack.push(cur);
                    proof {
                        lemma_pview_drop_last(old(state).exec_stack@);
                    }
                    if cur == dest {
                        state.exec_stack.push(body);
                        proof {
                            lemma_pview_push(old(state).exec_stack@.drop_last(), body);
                            assert(pview_seq(old(state).exec_stack@).drop_last().push(
                                pview(body),
                            ) =~= pview_seq(old(state).exec_stack@));
                        }
                    } else {
                        let next: i64 = if cur < dest {
                            cur + 1
                        } else {
                            cur - 1
                        };
                        let bodyc = body.clone();
                        let mut l: Vec<Program> = Vec::new();
                        l.push(Program::Literal(Literal::Integer(next)));
                        l.push(Program::Literal(Literal::Integer(dest)));
                        l.push(Program::Instruction(Instruction::Exec(Exec::DoStarRange)));
                        l.push(bodyc);
                        proof {
                            lemma_pview_seq(l@);
                            assert(pview_seq(l@) =~= range_continuation(
                                next,
                                dest,
                                pview(body),
                            )->List_0);
                        }
                        let cont = Program::List(l);
                        state.exec_stack.push(cont);
                        proof {
                            lemma_pview_push(old(state).exec_stack@.drop_last(), cont);
                        }
                        state.exec_stack.push(body);
                        proof {
                            lemma_pview_push(
                                old(state).exec_stack@.drop_last().push(cont),
                                body,
                            );
                        }
                    }
                }
                proof {
                    assert((state@, rng.counter) =~~= exec_step(
                        self,
                        old(state)@,
                        *cfg,
                        old(rng).counter,
                    ));
                }
            },
            Exec::DoStarTimes => {
                let positive = match state.integer_stack.get(0) {
                    Some(v) => *v >= 1,
                    None => false,
                };
                if positive && state.exec_stack.len() > 0 {
                    let count = state.integer_stack.pop().unwrap();
                    let body = state.exec_stack.pop().unwrap();
                    let mut inner: Vec<Program> = Vec::new();
                    inner.push(Program::Instruction(Instruction::Integer(Integer::Pop)));
                    inner.push(body);
                    proof {
                        lemma_pview_seq(inner@);
                        lemma_pview_drop_last(old(state).exec_stack@);
                        assert(pview_seq(inner@) =~= seq![
                            ProgView::Instruction(Instruction::Integer(Integer::Pop)),
                            pview(inner@[1]),
                        ]);
                    }
                    let wrapped = Program::List(inner);
                    let mut l: Vec<Program> = Vec::new();
                    l.push(Program::Literal(Literal::Integer(0)));
                    l.push(Program::Literal(Literal::Integer(count - 1)));
                    l.push(Program::Instruction(Instruction::Exec(Exec::DoStarRange)));
                    l.push(wrapped);
                    proof {
                        lemma_pview_seq(l@);
                        assert(pview_seq(l@) =~= range_continuation(
                            0,
                            (count - 1) as i64,
                            pview(l@[3]),
                        )->List_0);
                    }
                    let cont = Program::List(l);
                    state.exec_stack.push(cont);
                    proof {
                        lemma_pview_push(old(state).exec_stack@.drop_last(), cont);
                    }
                }
                proof {
                    assert((state@, rng.counter) =~~= exec_step(
                        self,
                        old(state)@,
                        *cfg,
                        old(rng).counter,
                    ));
                }
            },
            Exec::Dup => {
                let top = {
                    let t = state.exec_stack.get(0);
                    match t {
                        Some(p) => Some(p.clone()),
                        None => None,
                    }
                };
                if let Some(p) = top {
                    proof {
                        lemma_pview_drop_last(state.exec_stack@);
                    }
                    state.exec_stack.push(p);
                    proof {
                        lemma_pview_push(old(state).exec_stack@, p);
                    }
                }
                proof {
                    assert((state@, rng.counter) =~~= exec_step(
                        self,
                        old(state)@,
                        *cfg,
                        old(rng).counter,
                    ));
                }
            },
            Exec::Flush => {
                state.exec_stack.flush();
                proof {
                    assert(pview_seq(Seq::<Program>::empty()) =~= Seq::<ProgView>::empty());
                    assert((state@, rng.counter) =~~= exec_step(
                        self,
                        old(state)@,
                        *cfg,
                        old(rng).counter,
                    ));
                }
            },
            Exec::If => {
                if state.boolean_stack.len() > 0 && state.exec_stack.len() >= 2 {
                    let cond = state.boolean_stack.pop().unwrap();
                    let a = state.exec_stack.pop().unwrap();
                    let b = state.exec_stack.pop().unwrap();
                    proof {
                        lemma_pview_seq(old(state).exec_stack@);
                    }
                    proof {
                        lemma_pview_drop_last(old(state).exec_stack@);
                        lemma_pview_drop_last(old(state).exec_stack@.drop_last());
                        assert(pview(a) == old(state)@.execs.last());
                        assert(pview(b) == old(state)@.execs[old(state)@.execs.len() - 2]);
                    }
                    let chosen = if cond {
                        a
                    } else {
                        b
                    };
                    state.exec_stack.push(chosen);
                    proof {
                        lemma_pview_push(
                            old(state).exec_stack@.drop_last().drop_last(),
                            chosen,
                        );
                        lemma_pview_seq(state.exec_stack@);
                    }
                }
                proof {
                    assert((state@, rng.counter) =~~= exec_step(
                        self,
                        old(state)@,
                        *cfg,
                        old(rng).counter,
                    ));
                }
            },
            Exec::K => {
                if state.exec_stack.len() >= 2 {
                    let a = state.exec_stack.pop().unwrap();
                    let _b = state.exec_stack.pop().unwrap();
                    proof {
                        lemma_pview_seq(old(state).exec_stack@);
                    }
                    state.exec_stack.push(a);
                    proof {
                        lemma_pview_push(old(state).exec_stack@.drop_last().drop_last(), a);
                        lemma_pview_seq(state.exec_stack@);
                    }
                }
                proof {
                    assert((state@, rng.counter) =~~= exec_step(
                        self,
                        old(state)@,
                        *cfg,
                        old(rng).counter,
                    ));
                }
            },
            Exec::Pop => {
                let popped = state.exec_stack.pop();
                proof {
                    if old(state).exec_stack@.len() > 0 {
                        lemma_pview_drop_last(old(state).exec_stack@);
                    }
                    assert((state@, rng.counter) =~~= exec_step(
                        self,
                        old(state)@,
                        *cfg,
                        old(rng).counter,
                    ));
                }
            },
            Exec::Rot => {
                state.exec_stack.rot();
                proof {
                    lemma_pview_stack_ops(old(state).exec_stack@, 0);
                    assert((state@, rng.counter) =~~= exec_step(
                        self,
                        old(state)@,
                        *cfg,
                        old(rng).counter,
                    ));
                }
            },
            Exec::S => {
                if state.exec_stack.len() >= 3 {
                    let x = state.exec_stack.pop().unwrap();
                    let y = state.exec_stack.pop().unwrap();
                    let z = state.exec_stack.pop().unwrap();
                    proof {
                        lemma_pview_seq(old(state).exec_stack@);
                    }
                    let zc = z.clone();
                    let mut l: Vec<Program> = Vec::new();
                    l.push(y);
                    l.push(z);
                    proof {
                        lemma_pview_seq(l@);
                        assert(pview_seq(l@) =~= seq![pview(l@[0]), pview(l@[1])]);
                        lemma_pview_drop_last(old(state).exec_stack@);
                        lemma_pview_drop_last(old(state).exec_stack@.drop_last());
                        lemma_pview_drop_last(old(state).exec_stack@.drop_last().drop_last());
                    }
                    let pair = Program::List(l);
                    let ghost base = old(state).exec_stack@.drop_last().drop_last().drop_last();
                    state.exec_stack.push(pair);
                    proof {
                        lemma_pview_push(base, pair);
                    }
                    state.exec_stack.push(zc);
                    proof {
                        lemma_pview_push(base.push(pair), zc);
                    }
                    state.exec_stack.push(x);
                    proof {
                        lemma_pview_push(base.push(pair).push(zc), x);
                    }
                }
                proof {
                    assert((state@, rng.counter) =~~= exec_step(
                        self,
                        old(state)@,
                        *cfg,
                        old(rng).counter,
                    ));
                }
            },
            Exec::Shove => {
                if state.integer_stack.len() > 0 && state.exec_stack.len() > 0 {
                    let d = state.integer_stack.pop().unwrap();
                    proof {
                        lemma_pview_seq(state.exec_stack@);
                    }
                    let idx = clamp_index(d, state.exec_stack.len());
                    proof {
                        assert(idx as int == clamp_depth(
                            old(state)@.integers.last() as int,
                            old(state)@.execs.len() as int,
                        ));
                    }
                    state.exec_stack.shove(idx);
                    proof {
                        lemma_pview_stack_ops(old(state).exec_stack@, idx as int);
                        assert(state@.execs == seq_shove(
                            old(state)@.execs,
                            clamp_depth(
                                old(state)@.integers.last() as int,
                                old(state)@.execs.len() as int,
                            ),
                        ));
                    }
                }
                proof {
                    assert((state@, rng.counter) =~~= exec_step(
                        self,
                        old(state)@,
                        *cfg,
                        old(rng).counter,
                    ));
                }
            },
            Exec::StackDepth => {
                let n = len_to_i64(state.exec_stack.len());
                state.integer_stack.push(n);
                proof {
                    lemma_pview_seq(state.exec_stack@);
                    assert((state@, rng.counter) =~~= exec_step(
                        self,
                        old(state)@,
                        *cfg,
                        old(rng).counter,
                    ));
                }
            },
            Exec::Swap => {
                state.exec_stack.swap();
                proof {
                    lemma_pview_stack_ops(old(state).exec_stack@, 0);
                    assert((state@, rng.counter) =~~= exec_step(
                        self,
                        old(state)@,
                        *cfg,
                        old(rng).counter,
                    ));
                }
            },
            Exec::Y => {
                if state.exec_stack.len() > 0 {
                    let f = state.exec_stack.pop().unwrap();
                    proof {
                        lemma_pview_drop_last(old(state).exec_stack@);
                    }
                    let fc = f.clone();
                    let mut l: Vec<Program> = Vec::new();
                    l.push(Program::Instruction(Instruction::Exec(Exec::Y)));
                    l.push(fc);
                    proof {
                        lemma_pview_seq(l@);
                        assert(pview_seq(l@) =~= seq![
                            ProgView::Instruction(Instruction::Exec(Exec::Y)),
                            pview(l@[1]),
                        ]);
                    }
                    let wrapper = Program::List(l);
                    let ghost base = old(state).exec_stack@.drop_last();
                    state.exec_stack.push(wrapper);
                    proof {
                        lemma_pview_push(base, wrapper);
                    }
                    state.exec_stack.push(f);
                    proof {
                        lemma_pview_push(base.push(wrapper), f);
                    }
                }
                proof {
                    assert((state@, rng.counter) =~~= exec_step(
                        self,
                        old(state)@,
                        *cfg,
                        old(rng).counter,
                    ));
                }
            },
            Exec::Yank => {
                if state.integer_stack.len() > 0 && state.exec_stack.len() > 0 {
                    let d = state.integer_stack.pop().unwrap();
                    let idx = clamp_index(d, state.exec_stack.len());
                    state.exec_stack.yank(idx);
                    proof {
                        lemma_pview_stack_ops(old(state).exec_stack@, idx as int);
                    }
                }
                proof {
                    assert((state@, rng.counter) =~~= exec_step(
                        self,
                        old(state)@,
                        *cfg,
                        old(rng).counter,
                    ));
                }
            },
            Exec::YankDup => {
                if state.integer_stack.len() > 0 && state.exec_stack.len() > 0 {
                    let d = state.integer_stack.pop().unwrap();
                    let idx = clamp_index(d, state.exec_stack.len());
                    let deep = {
                        let t = state.exec_stack.get(idx);
                        match t {
                            Some(p) => Some(p.clone()),
                            None => None,
                        }
                    };
                    if let Some(p) = deep {
                        proof {
                            lemma_pview_seq(state.exec_stack@);
                        }
                        state.exec_stack.push(p);
                        proof {
                            lemma_pview_push(old(state).exec_stack@, p);
                        }
                    }
                }
                proof {
                    assert((state@, rng.counter) =~~= exec_step(
                        self,
                        old(state)@,
                        *cfg,
                        old(rng).counter,
                    ));
                }
            },
        }
    }
}

} // verus!
