//! Effects of the code-domain instructions.
//!
//! The code stack stores programs as manipulable data, so most of these
//! instructions are structural operations over trees treated as lists, plus
//! the code-addressing operations, which number sub-trees in pre-order and
//! clamp every address into range.  The whole effect of a dispatch equals
//! the [`code_step`] transition function.

use crate::catalog::{catalog_spec, instruction_catalog, CATALOG_LEN};
use crate::config::Config;
use crate::gencode::{gen_code, gen_spec};
use crate::program::{container_node, container_of, contains_node, contains_point, count_points,
    discrepancy, discrepancy_count, extract_point, insert_point, lemma_pview_drop_last,
    lemma_pview_push, lemma_pview_seq, lemma_pview_stack_ops, points, pview, pview_seq, replace_at,
    subst, substitute, subtree_at, tree_eq, Code, Instruction, Integer, Literal, Program,
    ProgView};
use crate::rng::{rng_advance, rng_draw, Rng};
use crate::stack::{clamp_depth, seq_dup, seq_pop, seq_rot, seq_shove, seq_swap, seq_yank,
    seq_yank_dup};
use crate::state::{lookup, State, StateView};
use crate::value::{clamp_i64, clamp_index, len_to_i64};
use vstd::prelude::*;

verus! {

/// A tree coerced to a list: a list is its children, an atom a singleton.
pub open spec fn as_list_view(v: ProgView) -> Seq<ProgView> {
    match v {
        ProgView::List(cs) => cs,
        _ => seq![v],
    }
}

/// Whether `x` equals some element of the sequence.
pub open spec fn member_of(s: Seq<ProgView>, x: ProgView) -> bool {
    exists|i: int| 0 <= i < s.len() && s[i] == x
}

/// The index of the first element equal to `x`, or -1 when there is none.
pub open spec fn position_of(s: Seq<ProgView>, x: ProgView) -> int
    decreases s,
{
    if s.len() == 0 {
        -1
    } else if s[0] == x {
        0
    } else {
        let r = position_of(s.drop_first(), x);
        if r < 0 {
            -1
        } else {
            1 + r
        }
    }
}

/// With the first `k` elements unequal to `x`, the position is decided by
/// what stands at `k`.
pub proof fn lemma_position_prefix(s: Seq<ProgView>, x: ProgView, k: int)
    requires
        0 <= k <= s.len(),
        forall|j: int| 0 <= j < k ==> s[j] != x,
    ensures
        k < s.len() && s[k] == x ==> position_of(s, x) == k,
        k == s.len() && (forall|j: int| 0 <= j < s.len() ==> s[j] != x) ==> position_of(s, x)
            == -1,
    decreases s,
{
    if s.len() > 0 && k > 0 {
        assert(s[0] != x);
        lemma_position_prefix(s.drop_first(), x, k - 1);
        assert(forall|j: int| 0 <= j < k - 1 ==> s.drop_first()[j] == s[j + 1]);
        if k < s.len() && s[k] == x {
            assert(s.drop_first()[k - 1] == x);
            assert(position_of(s.drop_first(), x) == k - 1);
        }
        if k == s.len() && (forall|j: int| 0 <= j < s.len() ==> s[j] != x) {
            assert(forall|j: int| 0 <= j < s.drop_first().len() ==> s.drop_first()[j] != x);
        }
    }
}

/// The continuation list that a code-stack counting loop expands to: it
/// re-pushes the loop state, re-quotes the body, and re-runs the ranging
/// instruction.
pub open spec fn code_range_continuation(next: i64, dest: i64, body: ProgView) -> ProgView {
    ProgView::List(
        seq![
            ProgView::Literal(Literal::Integer(next)),
            ProgView::Literal(Literal::Integer(dest)),
            ProgView::Instruction(Instruction::Code(Code::Quote)),
            body,
            ProgView::Instruction(Instruction::Code(Code::DoStarRange)),
        ],
    )
}

/// The instruction catalogue as a list of program nodes.
pub open spec fn catalog_list_view() -> ProgView {
    ProgView::List(catalog_spec().map_values(|i: Instruction| ProgView::Instruction(i)))
}

/// The state and random counter after one code instruction.
pub open spec fn code_step(i: Code, s: StateView, cfg: Config, r: u64) -> (StateView, u64) {
    match i {
        Code::Eq => if s.code.len() < 2 {
            (s, r)
        } else {
            (
                StateView {
                    code: s.code.drop_last().drop_last(),
                    booleans: s.booleans.push(s.code[s.code.len() - 2] == s.code.last()),
                    ..s
                },
                r,
            )
        },
        Code::Append => if s.code.len() < 2 {
            (s, r)
        } else {
            (
                StateView {
                    code: s.code.drop_last().drop_last().push(
                        ProgView::List(
                            as_list_view(s.code[s.code.len() - 2]) + as_list_view(s.code.last()),
                        ),
                    ),
                    ..s
                },
                r,
            )
        },
        Code::Atom => if s.code.len() == 0 {
            (s, r)
        } else {
            (
                StateView {
                    code: s.code.drop_last(),
                    booleans: s.booleans.push(!(s.code.last() is List)),
                    ..s
                },
                r,
            )
        },
        Code::Car => if s.code.len() == 0 {
            (s, r)
        } else {
            let c = s.code.last();
            let c2 = match c {
                ProgView::List(cs) => if cs.len() > 0 {
                    cs[0]
                } else {
                    c
                },
                _ => c,
            };
            (StateView { code: s.code.drop_last().push(c2), ..s }, r)
        },
        Code::Cdr => if s.code.len() == 0 {
            (s, r)
        } else {
            let c2 = match s.code.last() {
                ProgView::List(cs) => if cs.len() > 0 {
                    ProgView::List(cs.drop_first())
                } else {
                    ProgView::List(cs)
                },
                _ => ProgView::List(Seq::empty()),
            };
            (StateView { code: s.code.drop_last().push(c2), ..s }, r)
        },
        Code::Cons => if s.code.len() < 2 {
            (s, r)
        } else {
            (
                StateView {
                    code: s.code.drop_last().drop_last().push(
                        ProgView::List(
                            seq![s.code[s.code.len() - 2]] + as_list_view(s.code.last()),
                        ),
                    ),
                    ..s
                },
                r,
            )
        },
        Code::Container => if s.code.len() < 2 {
            (s, r)
        } else {
            let found = container_of(s.code.last(), s.code[s.code.len() - 2]);
            (
                StateView {
                    code: s.code.drop_last().drop_last().push(
                        match found {
                            Some(c) => c,
                            None => ProgView::List(Seq::empty()),
                        },
                    ),
                    ..s
                },
                r,
            )
        },
        Code::Contains => if s.code.len() < 2 {
            (s, r)
        } else {
            (
                StateView {
                    code: s.code.drop_last().drop_last(),
                    booleans: s.booleans.push(
                        contains_node(s.code[s.code.len() - 2], s.code.last()),
                    ),
                    ..s
                },
                r,
            )
        },
        Code::Define => if s.names.len() == 0 || s.code.len() == 0 {
            (s, r)
        } else {
            (
                StateView {
                    names: s.names.drop_last(),
                    code: s.code.drop_last(),
                    bindings: s.bindings.push((s.names.last(), s.code.last())),
                    ..s
                },
                r,
            )
        },
        Code::Definition => if s.names.len() == 0 || lookup(s.bindings, s.names.last()) is None {
            (s, r)
        } else {
            (
                StateView {
                    names: s.names.drop_last(),
                    code: s.code.push(lookup(s.bindings, s.names.last())->Some_0),
                    ..s
                },
                r,
            )
        },
        Code::Discrepancy => if s.code.len() < 2 {
            (s, r)
        } else {
            (
                StateView {
                    code: s.code.drop_last().drop_last(),
                    integers: s.integers.push(
                        discrepancy(s.code[s.code.len() - 2], s.code.last()) as i64,
                    ),
                    ..s
                },
                r,
            )
        },
        Code::Do => if s.code.len() == 0 {
            (s, r)
        } else {
            (
                StateView {
                    execs: s.execs.push(
                        ProgView::Instruction(Instruction::Code(Code::Pop)),
                    ).push(s.code.last()),
                    ..s
                },
                r,
            )
        },
        Code::DoStar => if s.code.len() == 0 {
            (s, r)
        } else {
            (
                StateView {
                    code: s.code.drop_last(),
                    execs: s.execs.push(s.code.last()),
                    ..s
                },
                r,
            )
        },
        Code::DoStarCount => if s.integers.len() == 0 || s.code.len() == 0 || s.integers.last()
            < 1 {
            (s, r)
        } else {
            (
                StateView {
                    integers: s.integers.drop_last(),
                    code: s.code.drop_last(),
                    execs: s.execs.push(
                        code_range_continuation(
                            0,
                            (s.integers.last() - 1) as i64,
                            s.code.last(),
                        ),
                    ),
                    ..s
                },
                r,
            )
        },
        Code::DoStarRange => if s.integers.len() < 2 || s.code.len() == 0 {
            (s, r)
        } else {
            let body = s.code.last();
            let dest = s.integers.last();
            let cur = s.integers[s.integers.len() - 2];
            let ints = s.integers.drop_last().drop_last().push(cur);
            if cur == dest {
                (
                    StateView {
                        integers: ints,
                        code: s.code.drop_last(),
                        execs: s.execs.push(body),
                        ..s
                    },
                    r,
                )
            } else {
                let next: i64 = if cur < dest {
                    (cur + 1) as i64
                } else {
                    (cur - 1) as i64
                };
                (
                    StateView {
                        integers: ints,
                        code: s.code.drop_last(),
                        execs: s.execs.push(code_range_continuation(next, dest, body)).push(body),
                        ..s
                    },
                    r,
                )
            }
        },
        Code::DoStarTimes => if s.integers.len() == 0 || s.code.len() == 0 || s.integers.last()
            < 1 {
            (s, r)
        } else {
            (
                StateView {
                    integers: s.integers.drop_last(),
                    code: s.code.drop_last(),
                    execs: s.execs.push(
                        code_range_continuation(
                            0,
                            (s.integers.last() - 1) as i64,
                            ProgView::List(
                                seq![
                                    ProgView::Instruction(Instruction::Integer(Integer::Pop)),
                                    s.code.last(),
                                ],
                            ),
                        ),
                    ),
                    ..s
                },
                r,
            )
        },
        Code::Dup => (StateView { code: seq_dup(s.code), ..s }, r),
        Code::Extract => if s.integers.len() == 0 || s.code.len() == 0 {
            (s, r)
        } else {
            let c = s.code.last();
            (
                StateView {
                    integers: s.integers.drop_last(),
                    code: s.code.drop_last().push(
                        subtree_at(c, clamp_depth(s.integers.last() as int, points(c))),
                    ),
                    ..s
                },
                r,
            )
        },
        Code::Flush => (StateView { code: Seq::empty(), ..s }, r),
        Code::FromBoolean => if s.booleans.len() == 0 {
            (s, r)
        } else {
            (
                StateView {
                    booleans: s.booleans.drop_last(),
                    code: s.code.push(ProgView::Literal(Literal::Boolean(s.booleans.last()))),
                    ..s
                },
                r,
            )
        },
        Code::FromFloat => if s.floats.len() == 0 {
            (s, r)
        } else {
            (
                StateView {
                    floats: s.floats.drop_last(),
                    code: s.code.push(ProgView::Literal(Literal::Float(s.floats.last()))),
                    ..s
                },
                r,
            )
        },
        Code::FromInteger => if s.integers.len() == 0 {
            (s, r)
        } else {
            (
                StateView {
                    integers: s.integers.drop_last(),
                    code: s.code.push(ProgView::Literal(Literal::Integer(s.integers.last()))),
                    ..s
                },
                r,
            )
        },
        Code::FromName => if s.names.len() == 0 {
            (s, r)
        } else {
            (
                StateView {
                    names: s.names.drop_last(),
                    code: s.code.push(ProgView::Literal(Literal::Name(s.names.last()))),
                    ..s
                },
                r,
            )
        },
        Code::If => if s.booleans.len() == 0 || s.code.len() < 2 {
            (s, r)
        } else {
            (
                StateView {
                    booleans: s.booleans.drop_last(),
                    code: s.code.drop_last().drop_last(),
                    execs: s.execs.push(
                        if s.booleans.last() {
                            s.code[s.code.len() - 2]
                        } else {
                            s.code.last()
                        },
                    ),
                    ..s
                },
                r,
            )
        },
        Code::Insert => if s.integers.len() == 0 || s.code.len() < 2 {
            (s, r)
        } else {
            let a = s.code.last();
            let b = s.code[s.code.len() - 2];
            (
                StateView {
                    integers: s.integers.drop_last(),
                    code: s.code.drop_last().drop_last().push(
                        replace_at(a, clamp_depth(s.integers.last() as int, points(a)), b),
                    ),
                    ..s
                },
                r,
            )
        },
        Code::Instructions => (StateView { code: s.code.push(catalog_list_view()), ..s }, r),
        Code::Length => if s.code.len() == 0 {
            (s, r)
        } else {
            (
                StateView {
                    code: s.code.drop_last(),
                    integers: s.integers.push(
                        clamp_i64(as_list_view(s.code.last()).len() as int) as i64,
                    ),
                    ..s
                },
                r,
            )
        },
        Code::List => if s.code.len() < 2 {
            (s, r)
        } else {
            (
                StateView {
                    code: s.code.drop_last().drop_last().push(
                        ProgView::List(seq![s.code[s.code.len() - 2], s.code.last()]),
                    ),
                    ..s
                },
                r,
            )
        },
        Code::Member => if s.code.len() < 2 {
            (s, r)
        } else {
            (
                StateView {
                    code: s.code.drop_last().drop_last(),
                    booleans: s.booleans.push(
                        member_of(as_list_view(s.code.last()), s.code[s.code.len() - 2]),
                    ),
                    ..s
                },
                r,
            )
        },
        Code::Noop => (s, r),
        Code::Nth => if s.integers.len() == 0 || s.code.len() == 0 {
            (s, r)
        } else {
            let l = as_list_view(s.code.last());
            let c2 = if l.len() == 0 {
                ProgView::List(Seq::empty())
            } else {
                l[clamp_depth(s.integers.last() as int, l.len() as int)]
            };
            (
                StateView {
                    integers: s.integers.drop_last(),
                    code: s.code.drop_last().push(c2),
                    ..s
                },
                r,
            )
        },
        Code::NthCdr => if s.integers.len() == 0 || s.code.len() == 0 {
            (s, r)
        } else {
            let l = as_list_view(s.code.last());
            let c2 = if l.len() == 0 {
                ProgView::List(Seq::empty())
            } else {
                ProgView::List(
                    l.skip(clamp_depth(s.integers.last() as int, l.len() as int)),
                )
            };
            (
                StateView {
                    integers: s.integers.drop_last(),
                    code: s.code.drop_last().push(c2),
                    ..s
                },
                r,
            )
        },
        Code::Null => if s.code.len() == 0 {
            (s, r)
        } else {
            (
                StateView {
                    code: s.code.drop_last(),
                    booleans: s.booleans.push(s.code.last() == ProgView::List(Seq::empty())),
                    ..s
                },
                r,
            )
        },
        Code::Pop => (StateView { code: seq_pop(s.code), ..s }, r),
        Code::Position => if s.code.len() < 2 {
            (s, r)
        } else {
            (
                StateView {
                    code: s.code.drop_last().drop_last(),
                    integers: s.integers.push(
                        clamp_i64(
                            position_of(as_list_view(s.code.last()), s.code[s.code.len() - 2]),
                        ) as i64,
                    ),
                    ..s
                },
                r,
            )
        },
        Code::Quote => if s.execs.len() == 0 {
            (s, r)
        } else {
            (
                StateView {
                    execs: s.execs.drop_last(),
                    code: s.code.push(s.execs.last()),
                    ..s
                },
                r,
            )
        },
        Code::Rand => {
            let n = 1 + (rng_draw(r) as int) % (cfg.max_points_in_random_expressions as int);
            let g = gen_spec(n, rng_advance(r), cfg, s.bindings);
            (StateView { code: s.code.push(g.0), ..s }, g.1)
        },
        Code::Rot => (StateView { code: seq_rot(s.code), ..s }, r),
        Code::Shove => if s.integers.len() == 0 || s.code.len() == 0 {
            (s, r)
        } else {
            (
                StateView {
                    integers: s.integers.drop_last(),
                    code: seq_shove(
                        s.code,
                        clamp_depth(s.integers.last() as int, s.code.len() as int),
                    ),
                    ..s
                },
                r,
            )
        },
        Code::Size => if s.code.len() == 0 {
            (s, r)
        } else {
            (
                StateView {
                    code: s.code.drop_last(),
                    integers: s.integers.push(points(s.code.last()) as i64),
                    ..s
                },
                r,
            )
        },
        Code::StackDepth => (
            StateView { integers: s.integers.push(clamp_i64(s.code.len() as int) as i64), ..s },
            r,
        ),
        Code::Subst => if s.code.len() < 3 {
            (s, r)
        } else {
            let a = s.code.last();
            let b = s.code[s.code.len() - 2];
            let c3 = s.code[s.code.len() - 3];
            (
                StateView {
                    code: s.code.drop_last().drop_last().drop_last().push(subst(a, b, c3)),
                    ..s
                },
                r,
            )
        },
        Code::Swap => (StateView { code: seq_swap(s.code), ..s }, r),
        Code::Yank => if s.integers.len() == 0 || s.code.len() == 0 {
            (s, r)
        } else {
            (
                StateView {
                    integers: s.integers.drop_last(),
                    code: seq_yank(
                        s.code,
                        clamp_depth(s.integers.last() as int, s.code.len() as int),
                    ),
                    ..s
                },
                r,
            )
        },
        Code::YankDup => if s.integers.len() == 0 || s.code.len() == 0 {
            (s, r)
        } else {
            (
                StateView {
                    integers: s.integers.drop_last(),
                    code: seq_yank_dup(
                        s.code,
                        clamp_depth(s.integers.last() as int, s.code.len() as int),
                    ),
                    ..s
                },
                r,
            )
        },
    }
}

/// A code address clamped into the tree's point range.
fn clamp_address(addr: i64, pts: i64) -> (r: i64)
    requires
        pts >= 1,
    ensures
        r as int == clamp_depth(addr as int, pts as int),
        0 <= r < pts,
{
    if addr < 0 {
        0
    } else if addr >= pts {
        pts - 1
    } else {
        addr
    }
}

/// A tree coerced to a list of programs, as [`as_list_view`] says.
fn to_list(p: Program) -> (v: Vec<Program>)
    ensures
        pview_seq(v@) == as_list_view(p@),
{
    match p {
        Program::List(cs) => {
            proof {
                lemma_pview_seq(cs@);
            }
            cs
        },
        other => {
            let mut v: Vec<Program> = Vec::new();
            v.push(other);
            proof {
                lemma_pview_seq(v@);
                assert(pview_seq(v@) =~= as_list_view(v@[0]@));
            }
            v
        },
    }
}

/// Whether `x` equals some element of `a` coerced to a list.
#[verifier::loop_isolation(false)]
fn list_member(a: &Program, x: &Program) -> (r: bool)
    ensures
        r == member_of(as_list_view(a@), x@),
{
    match a {
        Program::List(cs) => {
            proof {
                lemma_pview_seq(cs@);
            }
            let mut k: usize = 0;
            while k < cs.len()
                invariant
                    *a == Program::List(*cs),
                    k <= cs@.len(),
                    forall|j: int| 0 <= j < k ==> pview(cs@[j]) != x@,
                decreases cs@.len() - k,
            {
                if tree_eq(&cs[k], x) {
                    proof {
                        assert(as_list_view(a@)[k as int] == x@);
                    }
                    return true;
                }
                k += 1;
            }
            false
        },
        _ => {
            let r = tree_eq(a, x);
            proof {
                if r {
                    assert(as_list_view(a@)[0] == x@);
                }
            }
            r
        },
    }
}

/// The position of the first element of `a` (coerced to a list) equal to
/// `x`, or -1; clamped into the integer domain.
#[verifier::loop_isolation(false)]
fn list_position(a: &Program, x: &Program) -> (r: i64)
    ensures
        r as int == clamp_i64(position_of(as_list_view(a@), x@)),
{
    match a {
        Program::List(cs) => {
            proof {
                lemma_pview_seq(cs@);
            }
            let mut k: usize = 0;
            while k < cs.len()
                invariant
                    *a == Program::List(*cs),
                    k <= cs@.len(),
                    forall|j: int| 0 <= j < k ==> pview(cs@[j]) != x@,
                decreases cs@.len() - k,
            {
                if tree_eq(&cs[k], x) {
                    proof {
                        lemma_position_prefix(as_list_view(a@), x@, k as int);
                    }
                    return len_to_i64(k);
                }
                k += 1;
            }
            proof {
                assert(forall|j: int|
                    0 <= j < cs@.len() ==> as_list_view(a@)[j] == pview(cs@[j]));
                lemma_position_prefix(as_list_view(a@), x@, cs@.len() as int);
                assert(position_of(as_list_view(a@), x@) == -1);
            }
            -1
        },
        _ => {
            let r = tree_eq(a, x);
            if r {
                0
            } else {
                proof {
                    assert(as_list_view(a@).drop_first() =~= Seq::<ProgView>::empty());
                    assert(position_of(Seq::<ProgView>::empty(), x@) == -1);
                }
                -1
            }
        },
    }
}

impl Code {
    /// Applies this instruction's effect, exactly as [`code_step`] says.
    #[verifier::rlimit(100)]
    pub fn dispatch(self, state: &mut State, cfg: &Config, rng: &mut Rng)
        requires
            cfg.wf(),
        ensures
            (final(state)@, final(rng).counter) == code_step(
                self,
                old(state)@,
                *cfg,
                old(rng).counter,
            ),
    {
        proof {
            lemma_pview_seq(state.code_stack@);
            lemma_pview_seq(state.exec_stack@);
        }
        match self {
            Code::Eq => {
                if state.code_stack.len() >= 2 {
                    let a = state.code_stack.pop().unwrap();
                    let b = state.code_stack.pop().unwrap();
                    proof {
                        lemma_pview_drop_last(old(state).code_stack@);
                        lemma_pview_drop_last(old(state).code_stack@.drop_last());
                        lemma_pview_seq(state.code_stack@);
                        assert(pview_seq(state.code_stack@) =~= pview_seq(
                            old(state).code_stack@,
                        ).drop_last().drop_last());
                        assert(pview(a) == old(state)@.code.last());
                        assert(pview(b) == old(state)@.code[old(state)@.code.len() - 2]);
                    }
                    let same = tree_eq(&b, &a);
                    state.boolean_stack.push(same);
                }
                proof {
                    assert((state@, rng.counter) =~~= code_step(
                        self,
                        old(state)@,
                        *cfg,
                        old(rng).counter,
                    ));
                }
            },
            Code::Append => {
                if state.code_stack.len() >= 2 {
                    let a = state.code_stack.pop().unwrap();
                    let b = state.code_stack.pop().unwrap();
                    proof {
                        lemma_pview_drop_last(old(state).code_stack@);
                        lemma_pview_drop_last(old(state).code_stack@.drop_last());
                        assert(pview(a) == old(state)@.code.last());
                        assert(pview(b) == old(state)@.code[old(state)@.code.len() - 2]);
                    }
                    let ghost av = a@;
                    let ghost bv = b@;
                    let mut lb = to_list(b);
                    let mut la = to_list(a);
                    let ghost lbv = lb@;
                    let ghost lav = la@;
                    lb.append(&mut la);
                    proof {
                        lemma_pview_seq(lbv);
                        lemma_pview_seq(lav);
                        lemma_pview_seq(lb@);
                        assert(pview_seq(lb@) =~= as_list_view(bv) + as_list_view(av));
                    }
                    let res = Program::List(lb);
                    state.code_stack.push(res);
                    proof {
                        lemma_pview_push(
                            old(state).code_stack@.drop_last().drop_last(),
                            res,
                        );
                    }
                }
                proof {
                    assert((state@, rng.counter) =~~= code_step(
                        self,
                        old(state)@,
                        *cfg,
                        old(rng).counter,
                    ));
                }
            },
            Code::Atom => {
                if state.code_stack.len() > 0 {
                    let c = state.code_stack.pop().unwrap();
                    proof {
                        lemma_pview_drop_last(old(state).code_stack@);
                    }
                    let isatom = match &c {
                        Program::List(_) => false,
                        _ => true,
                    };
                    proof {
                        assert(isatom == !(c@ is List));
                    }
                    state.boolean_stack.push(isatom);
                }
                proof {
                    assert((state@, rng.counter) =~~= code_step(
                        self,
                        old(state)@,
                        *cfg,
                        old(rng).counter,
                    ));
                }
            },
            Code::Car => {
                if state.code_stack.len() > 0 {
                    let c = state.code_stack.pop().unwrap();
                    proof {
                        lemma_pview_drop_last(old(state).code_stack@);
                    }
                    let ghost cv = c@;
                    let c2 = match c {
                        Program::List(cs) => {
                            proof {
                                lemma_pview_seq(cs@);
                            }
                            if cs.len() > 0 {
                                cs[0].clone()
                            } else {
                                Program::List(cs)
                            }
                        },
                        other => other,
                    };
                    state.code_stack.push(c2);
                    proof {
                        lemma_pview_push(old(state).code_stack@.drop_last(), c2);
                    }
                }
                proof {
                    assert((state@, rng.counter) =~~= code_step(
                        self,
                        old(state)@,
                        *cfg,
                        old(rng).counter,
                    ));
                }
            },
            Code::Cdr => {
                if state.code_stack.len() > 0 {
                    let c = state.code_stack.pop().unwrap();
                    proof {
                        lemma_pview_drop_last(old(state).code_stack@);
                    }
                    let ghost cv = c@;
                    let c2 = match c {
                        Program::List(mut cs) => {
                            proof {
                                lemma_pview_seq(cs@);
                            }
                            if cs.len() > 0 {
                                let ghost pre = cs@;
                                let _ = cs.remove(0);
                                proof {
                                    lemma_pview_seq(cs@);
                                    assert(pview_seq(cs@) =~= pview_seq(pre).drop_first());
                                }
                                Program::List(cs)
                            } else {
                                Program::List(cs)
                            }
                        },
                        _ => Program::List(Vec::new()),
                    };
                    proof {
                        assert(pview_seq(Seq::<Program>::empty()) =~= Seq::<ProgView>::empty());
                    }
                    state.code_stack.push(c2);
                    proof {
                        lemma_pview_push(old(state).code_stack@.drop_last(), c2);
                    }
                }
                proof {
                    assert((state@, rng.counter) =~~= code_step(
                        self,
                        old(state)@,
                        *cfg,
                        old(rng).counter,
                    ));
                }
            },
            Code::Cons => {
                if state.code_stack.len() >= 2 {
                    let a = state.code_stack.pop().unwrap();
                    let b = state.code_stack.pop().unwrap();
                    proof {
                        lemma_pview_drop_last(old(state).code_stack@);
                        lemma_pview_drop_last(old(state).code_stack@.drop_last());
                        assert(pview(a) == old(state)@.code.last());
                        assert(pview(b) == old(state)@.code[old(state)@.code.len() - 2]);
                    }
                    let ghost av = a@;
                    let ghost bv = b@;
                    let mut l = to_list(a);
                    let ghost l0 = l@;
                    l.insert(0, b);
                    proof {
                        lemma_pview_seq(l0);
                        lemma_pview_seq(l@);
                        assert(pview_seq(l@) =~= seq![bv] + as_list_view(av));
                    }
                    let res = Program::List(l);
                    state.code_stack.push(res);
                    proof {
                        lemma_pview_push(
                            old(state).code_stack@.drop_last().drop_last(),
                            res,
                        );
                    }
                }
                proof {
                    assert((state@, rng.counter) =~~= code_step(
                        self,
                        old(state)@,
                        *cfg,
                        old(rng).counter,
                    ));
                }
            },
            Code::Container => {
                if state.code_stack.len() >= 2 {
                    let a = state.code_stack.pop().unwrap();
                    let b = state.code_stack.pop().unwrap();
                    proof {
                        lemma_pview_drop_last(old(state).code_stack@);
                        lemma_pview_drop_last(old(state).code_stack@.drop_last());
                        assert(pview(a) == old(state)@.code.last());
                        assert(pview(b) == old(state)@.code[old(state)@.code.len() - 2]);
                        assert(pview_seq(Seq::<Program>::empty()) =~= Seq::<ProgView>::empty());
                    }
                    let res = match container_node(&a, &b) {
                        Some(c) => c,
                        None => Program::List(Vec::new()),
                    };
                    state.code_stack.push(res);
                    proof {
                        lemma_pview_push(
                            old(state).code_stack@.drop_last().drop_last(),
                            res,
                        );
                    }
                }
                proof {
                    assert((state@, rng.counter) =~~= code_step(
                        self,
                        old(state)@,
                        *cfg,
                        old(rng).counter,
                    ));
                }
            },
            Code::Contains => {
                if state.code_stack.len() >= 2 {
                    let a = state.code_stack.pop().unwrap();
                    let b = state.code_stack.pop().unwrap();
                    proof {
                        lemma_pview_drop_last(old(state).code_stack@);
                        lemma_pview_drop_last(old(state).code_stack@.drop_last());
                        assert(pview(a) == old(state)@.code.last());
                        assert(pview(b) == old(state)@.code[old(state)@.code.len() - 2]);
                    }
                    let held = contains_point(&b, &a);
                    state.boolean_stack.push(held);
                }
                proof {
                    assert((state@, rng.counter) =~~= code_step(
                        self,
                        old(state)@,
                        *cfg,
                        old(rng).counter,
                    ));
                }
            },
            Code::Define => {
                if state.name_stack.len() > 0 && state.code_stack.len() > 0 {
                    let n = state.name_stack.pop().unwrap();
                    let p = state.code_stack.pop().unwrap();
                    proof {
                        lemma_pview_drop_last(old(state).code_stack@);
                    }
                    state.bind(n, p);
                }
                proof {
                    assert((state@, rng.counter) =~~= code_step(
                        self,
                        old(state)@,
                        *cfg,
                        old(rng).counter,
                    ));
                }
            },
            Code::Definition => {
                let top_name = match state.name_stack.get(0) {
                    Some(v) => Some(*v),
                    None => None,
                };
                if let Some(nm) = top_name {
                    match state.lookup_binding(nm) {
                        Some(d) => {
                            let _ = state.name_stack.pop();
                            state.code_stack.push(d);
                            proof {
                                lemma_pview_push(old(state).code_stack@, d);
                            }
                        },
                        None => {},
                    }
                }
                proof {
                    assert((state@, rng.counter) =~~= code_step(
                        self,
                        old(state)@,
                        *cfg,
                        old(rng).counter,
                    ));
                }
            },
            Code::Discrepancy => {
                if state.code_stack.len() >= 2 {
                    let a = state.code_stack.pop().unwrap();
                    let b = state.code_stack.pop().unwrap();
                    proof {
                        lemma_pview_drop_last(old(state).code_stack@);
                        lemma_pview_drop_last(old(state).code_stack@.drop_last());
                        assert(pview(a) == old(state)@.code.last());
                        assert(pview(b) == old(state)@.code[old(state)@.code.len() - 2]);
                    }
                    let d = discrepancy_count(&b, &a);
                    state.integer_stack.push(d);
                }
                proof {
                    assert((state@, rng.counter) =~~= code_step(
                        self,
                        old(state)@,
                        *cfg,
                        old(rng).counter,
                    ));
                }
            },
            Code::Do => {
                let top = match state.code_stack.get(0) {
                    Some(p) => Some(p.clone()),
                    None => None,
                };
                if let Some(c) = top {
                    proof {
                        lemma_pview_drop_last(state.code_stack@);
                    }
                    let instr = Program::Instruction(Instruction::Code(Code::Pop));
                    let ghost base = old(state).exec_stack@;
                    state.exec_stack.push(instr);
                    proof {
                        lemma_pview_push(base, instr);
                    }
                    state.exec_stack.push(c);
                    proof {
                        lemma_pview_push(base.push(instr), c);
                    }
                }
                proof {
                    assert((state@, rng.counter) =~~= code_step(
                        self,
                        old(state)@,
                        *cfg,
                        old(rng).counter,
                    ));
                }
            },
            Code::DoStar => {
                if state.code_stack.len() > 0 {
                    let c = state.code_stack.pop().unwrap();
                    proof {
                        lemma_pview_drop_last(old(state).code_stack@);
                    }
                    state.exec_stack.push(c);
                    proof {
                        lemma_pview_push(old(state).exec_stack@, c);
                    }
                }
                proof {
                    assert((state@, rng.counter) =~~= code_step(
                        self,
                        old(state)@,
                        *cfg,
                        old(rng).counter,
                    ));
                }
            },
            Code::DoStarCount => {
                let positive = match state.integer_stack.get(0) {
                    Some(v) => *v >= 1,
                    None => false,
                };
                if positive && state.code_stack.len() > 0 {
                    let count = state.integer_stack.pop().unwrap();
                    let body = state.code_stack.pop().unwrap();
                    proof {
                        lemma_pview_drop_last(old(state).code_stack@);
                    }
                    let mut l: Vec<Program> = Vec::new();
                    l.push(Program::Literal(Literal::Integer(0)));
                    l.push(Program::Literal(Literal::Integer(count - 1)));
                    l.push(Program::Instruction(Instruction::Code(Code::Quote)));
                    l.push(body);
                    l.push(Program::Instruction(Instruction::Code(Code::DoStarRange)));
                    proof {
                        lemma_pview_seq(l@);
                        assert(pview_seq(l@) =~= code_range_continuation(
                            0,
                            (count - 1) as i64,
                            pview(l@[3]),
                        )->List_0);
                    }
                    let cont = Program::List(l);
                    state.exec_stack.push(cont);
                    proof {
                        lemma_pview_push(old(state).exec_stack@, cont);
                    }
                }
                proof {
                    assert((state@, rng.counter) =~~= code_step(
                        self,
                        old(state)@,
                        *cfg,
                        old(rng).counter,
                    ));
                }
            },
            Code::DoStarRange => {
                if state.integer_stack.len() >= 2 && state.code_stack.len() > 0 {
                    let body = state.code_stack.pop().unwrap();
                    let dest = state.integer_stack.pop().unwrap();
                    let cur = state.integer_stack.pop().unwrap();
                    state.integer_stack.push(cur);
                    proof {
                        lemma_pview_drop_last(old(state).code_stack@);
                    }
                    if cur == dest {
                        state.exec_stack.push(body);
                        proof {
                            lemma_pview_push(old(state).exec_stack@, body);
                        }
                    } else {
                        let next: i64 = if cur < dest {
                            cur + 1
                        } else {
                            cur - 1
                        };
                        let bodyc = body.clone();
                        let mut l: Vec<Program> = Vec::new();
                        l.push(Program::Literal(Literal::Integer(next)));
                        l.push(Program::Literal(Literal::Integer(dest)));
                        l.push(Program::Instruction(Instruction::Code(Code::Quote)));
                        l.push(bodyc);
                        l.push(Program::Instruction(Instruction::Code(Code::DoStarRange)));
                        proof {
                            lemma_pview_seq(l@);
                            assert(pview_seq(l@) =~= code_range_continuation(
                                next,
                                dest,
                                pview(body),
                            )->List_0);
                        }
                        let cont = Program::List(l);
                        let ghost base = old(state).exec_stack@;
                        state.exec_stack.push(cont);
                        proof {
                            lemma_pview_push(base, cont);
                        }
                        state.exec_stack.push(body);
                        proof {
                            lemma_pview_push(base.push(cont), body);
                        }
                    }
                }
                proof {
                    assert((state@, rng.counter) =~~= code_step(
                        self,
                        old(state)@,
                        *cfg,
                        old(rng).counter,
                    ));
                }
            },
            Code::DoStarTimes => {
                let positive = match state.integer_stack.get(0) {
                    Some(v) => *v >= 1,
                    None => false,
                };
                if positive && state.code_stack.len() > 0 {
                    let count = state.integer_stack.pop().unwrap();
                    let body = state.code_stack.pop().unwrap();
                    proof {
                        lemma_pview_drop_last(old(state).code_stack@);
                    }
                    let mut inner: Vec<Program> = Vec::new();
                    inner.push(Program::Instruction(Instruction::Integer(Integer::Pop)));
                    inner.push(body);
                    proof {
                        lemma_pview_seq(inner@);
                        assert(pview_seq(inner@) =~= seq![
                            ProgView::Instruction(Instruction::Integer(Integer::Pop)),
                            pview(inner@[1]),
                        ]);
                    }
                    let wrapped = Program::List(inner);
                    let mut l: Vec<Program> = Vec::new();
                    l.push(Program::Literal(Literal::Integer(0)));
                    l.push(Program::Literal(Literal::Integer(count - 1)));
                    l.push(Program::Instruction(Instruction::Code(Code::Quote)));
                    l.push(wrapped);
                    l.push(Program::Instruction(Instruction::Code(Code::DoStarRange)));
                    proof {
                        lemma_pview_seq(l@);
                        assert(pview_seq(l@) =~= code_range_continuation(
                            0,
                            (count - 1) as i64,
                            pview(l@[3]),
                        )->List_0);
                    }
                    let cont = Program::List(l);
                    state.exec_stack.push(cont);
                    proof {
                        lemma_pview_push(old(state).exec_stack@, cont);
                    }
                }
                proof {
                    assert((state@, rng.counter) =~~= code_step(
                        self,
                        old(state)@,
                        *cfg,
                        old(rng).counter,
                    ));
                }
            },
            Code::Dup => {
                let top = {
                    let t = state.code_stack.get(0);
                    match t {
                        Some(p) => Some(p.clone()),
                        None => None,
                    }
                };
                if let Some(p) = top {
                    proof {
                        lemma_pview_drop_last(state.code_stack@);
                    }
                    state.code_stack.push(p);
                    proof {
                        lemma_pview_push(old(state).code_stack@, p);
                    }
                }
                proof {
                    assert((state@, rng.counter) =~~= code_step(
                        self,
                        old(state)@,
                        *cfg,
                        old(rng).counter,
                    ));
                }
            },
            Code::Extract => {
                if state.integer_stack.len() > 0 && state.code_stack.len() > 0 {
                    let addr = state.integer_stack.pop().unwrap();
                    let c = state.code_stack.pop().unwrap();
                    proof {
                        lemma_pview_drop_last(old(state).code_stack@);
                        crate::program::lemma_points_bounds(c@);
                    }
                    let pts = count_points(&c);
                    let idx = clamp_address(addr, pts);
                    let sub = extract_point(&c, idx);
                    state.code_stack.push(sub);
                    proof {
                        lemma_pview_push(old(state).code_stack@.drop_last(), sub);
                    }
                }
                proof {
                    assert((state@, rng.counter) =~~= code_step(
                        self,
                        old(state)@,
                        *cfg,
                        old(rng).counter,
                    ));
                }
            },
            Code::Flush => {
                state.code_stack.flush();
                proof {
                    assert(pview_seq(Seq::<Program>::empty()) =~= Seq::<ProgView>::empty());
                    assert((state@, rng.counter) =~~= code_step(
                        self,
                        old(state)@,
                        *cfg,
                        old(rng).counter,
                    ));
                }
            },
            Code::FromBoolean => {
                if state.boolean_stack.len() > 0 {
                    let v = state.boolean_stack.pop().unwrap();
                    let lit = Program::Literal(Literal::Boolean(v));
                    state.code_stack.push(lit);
                    proof {
                        lemma_pview_push(old(state).code_stack@, lit);
                    }
                }
                proof {
                    assert((state@, rng.counter) =~~= code_step(
                        self,
                        old(state)@,
                        *cfg,
                        old(rng).counter,
                    ));
                }
            },
            Code::FromFloat => {
                if state.float_stack.len() > 0 {
                    let v = state.float_stack.pop().unwrap();
                    let lit = Program::Literal(Literal::Float(v));
                    state.code_stack.push(lit);
                    proof {
                        lemma_pview_push(old(state).code_stack@, lit);
                    }
                }
                proof {
                    assert((state@, rng.counter) =~~= code_step(
                        self,
                        old(state)@,
                        *cfg,
                        old(rng).counter,
                    ));
                }
            },
            Code::FromInteger => {
                if state.integer_stack.len() > 0 {
                    let v = state.integer_stack.pop().unwrap();
                    let lit = Program::Literal(Literal::Integer(v));
                    state.code_stack.push(lit);
                    proof {
                        lemma_pview_push(old(state).code_stack@, lit);
                    }
                }
                proof {
                    assert((state@, rng.counter) =~~= code_step(
                        self,
                        old(state)@,
                        *cfg,
                        old(rng).counter,
                    ));
                }
            },
            Code::FromName => {
                if state.name_stack.len() > 0 {
                    let v = state.name_stack.pop().unwrap();
                    let lit = Program::Literal(Literal::Name(v));
                    state.code_stack.push(lit);
                    proof {
                        lemma_pview_push(old(state).code_stack@, lit);
                    }
                }
                proof {
                    assert((state@, rng.counter) =~~= code_step(
                        self,
                        old(state)@,
                        *cfg,
                        old(rng).counter,
                    ));
                }
            },
            Code::If => {
                if state.boolean_stack.len() > 0 && state.code_stack.len() >= 2 {
                    let cond = state.boolean_stack.pop().unwrap();
                    let a = state.code_stack.pop().unwrap();
                    let b = state.code_stack.pop().unwrap();
                    proof {
                        lemma_pview_drop_last(old(state).code_stack@);
                        lemma_pview_drop_last(old(state).code_stack@.drop_last());
                        lemma_pview_seq(state.code_stack@);
                        assert(pview_seq(state.code_stack@) =~= pview_seq(
                            old(state).code_stack@,
                        ).drop_last().drop_last());
                        assert(pview(a) == old(state)@.code.last());
                        assert(pview(b) == old(state)@.code[old(state)@.code.len() - 2]);
                    }
                    let chosen = if cond {
                        b
                    } else {
                        a
                    };
                    state.exec_stack.push(chosen);
                    proof {
                        lemma_pview_push(old(state).exec_stack@, chosen);
                    }
                }
                proof {
                    assert((state@, rng.counter) =~~= code_step(
                        self,
                        old(state)@,
                        *cfg,
                        old(rng).counter,
                    ));
                }
            },
            Code::Insert => {
                if state.integer_stack.len() > 0 && state.code_stack.len() >= 2 {
                    let addr = state.integer_stack.pop().unwrap();
                    let a = state.code_stack.pop().unwrap();
                    let b = state.code_stack.pop().unwrap();
                    proof {
                        lemma_pview_drop_last(old(state).code_stack@);
                        lemma_pview_drop_last(old(state).code_stack@.drop_last());
                        assert(pview(a) == old(state)@.code.last());
                        assert(pview(b) == old(state)@.code[old(state)@.code.len() - 2]);
                        crate::program::lemma_points_bounds(a@);
                    }
                    let pts = count_points(&a);
                    let idx = clamp_address(addr, pts);
                    let res = insert_point(&a, idx, &b);
                    state.code_stack.push(res);
                    proof {
                        lemma_pview_push(
                            old(state).code_stack@.drop_last().drop_last(),
                            res,
                        );
                    }
                }
                proof {
                    assert((state@, rng.counter) =~~= code_step(
                        self,
                        old(state)@,
                        *cfg,
                        old(rng).counter,
                    ));
                }
            },
            Code::Instructions => {
                let cat = instruction_catalog();
                let mut nodes: Vec<Program> = Vec::new();
                let mut k: usize = 0;
                while k < cat.len()
                    invariant
                        cat@ == catalog_spec(),
                        k <= cat@.len(),
                        nodes@.len() == k,
                        forall|j: int|
                            0 <= j < k ==> nodes@[j] == Program::Instruction(cat@[j]),
                    decreases cat@.len() - k,
                {
                    nodes.push(Program::Instruction(cat[k]));
                    k += 1;
                }
                proof {
                    lemma_pview_seq(nodes@);
                    assert(pview_seq(nodes@) =~= catalog_list_view()->List_0);
                }
                let res = Program::List(nodes);
                state.code_stack.push(res);
                proof {
                    lemma_pview_push(old(state).code_stack@, res);
                    assert((state@, rng.counter) =~~= code_step(
                        self,
                        old(state)@,
                        *cfg,
                        old(rng).counter,
                    ));
                }
            },
            Code::Length => {
                if state.code_stack.len() > 0 {
                    let c = state.code_stack.pop().unwrap();
                    proof {
                        lemma_pview_drop_last(old(state).code_stack@);
                    }
                    let n: usize = match &c {
                        Program::List(cs) => {
                            proof {
                                lemma_pview_seq(cs@);
                            }
                            cs.len()
                        },
                        _ => 1,
                    };
                    proof {
                        assert(n == as_list_view(c@).len());
                    }
                    state.integer_stack.push(len_to_i64(n));
                }
                proof {
                    assert((state@, rng.counter) =~~= code_step(
                        self,
                        old(state)@,
                        *cfg,
                        old(rng).counter,
                    ));
                }
            },
            Code::List => {
                if state.code_stack.len() >= 2 {
                    let a = state.code_stack.pop().unwrap();
                    let b = state.code_stack.pop().unwrap();
                    proof {
                        lemma_pview_drop_last(old(state).code_stack@);
                        lemma_pview_drop_last(old(state).code_stack@.drop_last());
                        assert(pview(a) == old(state)@.code.last());
                        assert(pview(b) == old(state)@.code[old(state)@.code.len() - 2]);
                    }
                    let ghost av = a@;
                    let ghost bv = b@;
                    let mut l: Vec<Program> = Vec::new();
                    l.push(b);
                    l.push(a);
                    proof {
                        lemma_pview_seq(l@);
                        assert(pview_seq(l@) =~= seq![bv, av]);
                    }
                    let res = Program::List(l);
                    state.code_stack.push(res);
                    proof {
                        lemma_pview_push(
                            old(state).code_stack@.drop_last().drop_last(),
                            res,
                        );
                    }
                }
                proof {
                    assert((state@, rng.counter) =~~= code_step(
                        self,
                        old(state)@,
                        *cfg,
                        old(rng).counter,
                    ));
                }
            },
            Code::Member => {
                if state.code_stack.len() >= 2 {
                    let a = state.code_stack.pop().unwrap();
                    let b = state.code_stack.pop().unwrap();
                    proof {
                        lemma_pview_drop_last(old(state).code_stack@);
                        lemma_pview_drop_last(old(state).code_stack@.drop_last());
                        assert(pview(a) == old(state)@.code.last());
                        assert(pview(b) == old(state)@.code[old(state)@.code.len() - 2]);
                    }
                    let m = list_member(&a, &b);
                    state.boolean_stack.push(m);
                }
                proof {
                    assert((state@, rng.counter) =~~= code_step(
                        self,
                        old(state)@,
                        *cfg,
                        old(rng).counter,
                    ));
                }
            },
            Code::Noop => {
                proof {
                    assert((state@, rng.counter) =~~= code_step(
                        self,
                        old(state)@,
                        *cfg,
                        old(rng).counter,
                    ));
                }
            },
            Code::Nth => {
                if state.integer_stack.len() > 0 && state.code_stack.len() > 0 {
                    let addr = state.integer_stack.pop().unwrap();
                    let c = state.code_stack.pop().unwrap();
                    proof {
                        lemma_pview_drop_last(old(state).code_stack@);
                    }
                    let ghost cv = c@;
                    let l = to_list(c);
                    proof {
                        lemma_pview_seq(l@);
                    }
                    if l.len() == 0 {
                        let res = Program::List(Vec::new());
                        proof {
                            assert(pview_seq(Seq::<Program>::empty())
                                =~= Seq::<ProgView>::empty());
                        }
                        state.code_stack.push(res);
                        proof {
                            lemma_pview_push(old(state).code_stack@.drop_last(), res);
                        }
                    } else {
                        let idx = clamp_index(addr, l.len());
                        let res = l[l.len() - 1 - (l.len() - 1 - idx)].clone();
                        state.code_stack.push(res);
                        proof {
                            assert(res@ == as_list_view(cv)[idx as int]);
                            lemma_pview_push(old(state).code_stack@.drop_last(), res);
                        }
                    }
                }
                proof {
                    assert((state@, rng.counter) =~~= code_step(
                        self,
                        old(state)@,
                        *cfg,
                        old(rng).counter,
                    ));
                }
            },
            Code::NthCdr => {
                if state.integer_stack.len() > 0 && state.code_stack.len() > 0 {
                    let addr = state.integer_stack.pop().unwrap();
                    let c = state.code_stack.pop().unwrap();
                    proof {
                        lemma_pview_drop_last(old(state).code_stack@);
                    }
                    let ghost cv = c@;
                    let l = to_list(c);
                    proof {
                        lemma_pview_seq(l@);
                    }
                    if l.len() == 0 {
                        let res = Program::List(Vec::new());
                        proof {
                            assert(pview_seq(Seq::<Program>::empty())
                                =~= Seq::<ProgView>::empty());
                        }
                        state.code_stack.push(res);
                        proof {
                            lemma_pview_push(old(state).code_stack@.drop_last(), res);
                        }
                    } else {
                        let idx = clamp_index(addr, l.len());
                        let mut out: Vec<Program> = Vec::new();
                        let mut k: usize = idx;
                        while k < l.len()
                            invariant
                                idx <= k <= l@.len(),
                                out@.len() == k - idx,
                                forall|j: int|
                                    0 <= j < k - idx ==> pview(out@[j]) == pview(
                                        l@[idx + j],
                                    ),
                            decreases l@.len() - k,
                        {
                            let e = l[k].clone();
                            out.push(e);
                            k += 1;
                        }
                        proof {
                            lemma_pview_seq(out@);
                            assert(pview_seq(out@) =~= as_list_view(cv).skip(idx as int));
                        }
                        let res = Program::List(out);
                        state.code_stack.push(res);
                        proof {
                            lemma_pview_push(old(state).code_stack@.drop_last(), res);
                        }
                    }
                }
                proof {
                    assert((state@, rng.counter) =~~= code_step(
                        self,
                        old(state)@,
                        *cfg,
                        old(rng).counter,
                    ));
                }
            },
            Code::Null => {
                if state.code_stack.len() > 0 {
                    let c = state.code_stack.pop().unwrap();
                    proof {
                        lemma_pview_drop_last(old(state).code_stack@);
                    }
                    let empty = match &c {
                        Program::List(cs) => {
                            proof {
                                lemma_pview_seq(cs@);
                            }
                            cs.len() == 0
                        },
                        _ => false,
                    };
                    proof {
                        if empty {
                            assert(c@ =~~= ProgView::List(Seq::<ProgView>::empty()));
                        }
                        assert(empty == (c@ == ProgView::List(Seq::<ProgView>::empty())));
                    }
                    state.boolean_stack.push(empty);
                }
                proof {
                    assert((state@, rng.counter) =~~= code_step(
                        self,
                        old(state)@,
                        *cfg,
                        old(rng).counter,
                    ));
                }
            },
            Code::Pop => {
                let popped = state.code_stack.pop();
                proof {
                    if old(state).code_stack@.len() > 0 {
                        lemma_pview_drop_last(old(state).code_stack@);
                    }
                    assert((state@, rng.counter) =~~= code_step(
                        self,
                        old(state)@,
                        *cfg,
                        old(rng).counter,
                    ));
                }
            },
            Code::Position => {
                if state.code_stack.len() >= 2 {
                    let a = state.code_stack.pop().unwrap();
                    let b = state.code_stack.pop().unwrap();
                    proof {
                        lemma_pview_drop_last(old(state).code_stack@);
                        lemma_pview_drop_last(old(state).code_stack@.drop_last());
                        assert(pview(a) == old(state)@.code.last());
                        assert(pview(b) == old(state)@.code[old(state)@.code.len() - 2]);
                    }
                    let pos = list_position(&a, &b);
                    state.integer_stack.push(pos);
                }
                proof {
                    assert((state@, rng.counter) =~~= code_step(
                        self,
                        old(state)@,
                        *cfg,
                        old(rng).counter,
                    ));
                }
            },
            Code::Quote => {
                if state.exec_stack.len() > 0 {
                    let p = state.exec_stack.pop().unwrap();
                    proof {
                        lemma_pview_drop_last(old(state).exec_stack@);
                    }
                    state.code_stack.push(p);
                    proof {
                        lemma_pview_push(old(state).code_stack@, p);
                    }
                }
                proof {
                    assert((state@, rng.counter) =~~= code_step(
                        self,
                        old(state)@,
                        *cfg,
                        old(rng).counter,
                    ));
                }
            },
            Code::Rand => {
                let sd = rng.next_u64();
                let n: usize = 1 + ((sd % (cfg.max_points_in_random_expressions as u64))
                    as usize);
                let p = gen_code(n, rng, cfg, &state.bindings);
                state.code_stack.push(p);
                proof {
                    lemma_pview_push(old(state).code_stack@, p);
                    assert((state@, rng.counter) =~~= code_step(
                        self,
                        old(state)@,
                        *cfg,
                        old(rng).counter,
                    ));
                }
            },
            Code::Rot => {
                state.code_stack.rot();
                proof {
                    lemma_pview_stack_ops(old(state).code_stack@, 0);
                    assert((state@, rng.counter) =~~= code_step(
                        self,
                        old(state)@,
                        *cfg,
                        old(rng).counter,
                    ));
                }
            },
            Code::Shove => {
                if state.integer_stack.len() > 0 && state.code_stack.len() > 0 {
                    let d = state.integer_stack.pop().unwrap();
                    let idx = clamp_index(d, state.code_stack.len());
                    state.code_stack.shove(idx);
                    proof {
                        lemma_pview_stack_ops(old(state).code_stack@, idx as int);
                        assert(state@.code == seq_shove(
                            old(state)@.code,
                            clamp_depth(
                                old(state)@.integers.last() as int,
                                old(state)@.code.len() as int,
                            ),
                        ));
                    }
                }
                proof {
                    assert((state@, rng.counter) =~~= code_step(
                        self,
                        old(state)@,
                        *cfg,
                        old(rng).counter,
                    ));
                }
            },
            Code::Size => {
                if state.code_stack.len() > 0 {
                    let c = state.code_stack.pop().unwrap();
                    proof {
                        lemma_pview_drop_last(old(state).code_stack@);
                        crate::program::lemma_points_bounds(c@);
                    }
                    let n = count_points(&c);
                    state.integer_stack.push(n);
                }
                proof {
                    assert((state@, rng.counter) =~~= code_step(
                        self,
                        old(state)@,
                        *cfg,
                        old(rng).counter,
                    ));
                }
            },
            Code::StackDepth => {
                let n = len_to_i64(state.code_stack.len());
                state.integer_stack.push(n);
                proof {
                    assert((state@, rng.counter) =~~= code_step(
                        self,
                        old(state)@,
                        *cfg,
                        old(rng).counter,
                    ));
                }
            },
            Code::Subst => {
                if state.code_stack.len() >= 3 {
                    let a = state.code_stack.pop().unwrap();
                    let b = state.code_stack.pop().unwrap();
                    let c3 = state.code_stack.pop().unwrap();
                    proof {
                        lemma_pview_drop_last(old(state).code_stack@);
                        lemma_pview_drop_last(old(state).code_stack@.drop_last());
                        lemma_pview_drop_last(
                            old(state).code_stack@.drop_last().drop_last(),
                        );
                        assert(pview(a) == old(state)@.code.last());
                        assert(pview(b) == old(state)@.code[old(state)@.code.len() - 2]);
                        assert(pview(c3) == old(state)@.code[old(state)@.code.len() - 3]);
                        lemma_pview_seq(state.code_stack@);
                        assert(pview_seq(state.code_stack@) =~= pview_seq(
                            old(state).code_stack@,
                        ).drop_last().drop_last().drop_last());
                    }
                    let res = substitute(&a, &b, &c3);
                    state.code_stack.push(res);
                    proof {
                        lemma_pview_push(
                            old(state).code_stack@.drop_last().drop_last().drop_last(),
                            res,
                        );
                    }
                }
                proof {
                    assert((state@, rng.counter) =~~= code_step(
                        self,
                        old(state)@,
                        *cfg,
                        old(rng).counter,
                    ));
                }
            },
            Code::Swap => {
                state.code_stack.swap();
                proof {
                    lemma_pview_stack_ops(old(state).code_stack@, 0);
                    assert((state@, rng.counter) =~~= code_step(
                        self,
                        old(state)@,
                        *cfg,
                        old(rng).counter,
                    ));
                }
            },
            Code::Yank => {
                if state.integer_stack.len() > 0 && state.code_stack.len() > 0 {
                    let d = state.integer_stack.pop().unwrap();
                    let idx = clamp_index(d, state.code_stack.len());
                    state.code_stack.yank(idx);
                    proof {
                        lemma_pview_stack_ops(old(state).code_stack@, idx as int);
                    }
                }
                proof {
                    assert((state@, rng.counter) =~~= code_step(
                        self,
                        old(state)@,
                        *cfg,
                        old(rng).counter,
                    ));
                }
            },
            Code::YankDup => {
                if state.integer_stack.len() > 0 && state.code_stack.len() > 0 {
                    let d = state.integer_stack.pop().unwrap();
                    let idx = clamp_index(d, state.code_stack.len());
                    let deep = {
                        let t = state.code_stack.get(idx);
                        match t {
                            Some(p) => Some(p.clone()),
                            None => None,
                        }
                    };
                    if let Some(p) = deep {
                        proof {
                            lemma_pview_seq(state.code_stack@);
                        }
                        state.code_stack.push(p);
                        proof {
                            lemma_pview_push(old(state).code_stack@, p);
                        }
                    }
                }
                proof {
                    assert((state@, rng.counter) =~~= code_step(
                        self,
                        old(state)@,
                        *cfg,
                        old(rng).counter,
                    ));
                }
            },
        }
    }
}

} // verus!
