//! Deterministic generation of random program trees.
//!
//! The random-code instruction grows a tree from a point budget, every
//! choice drawn from the run's seeded generator: whether a node is an atom
//! or a list, how the remaining budget is split among children, and which
//! atom is minted.  A name atom is novel with the configured probability,
//! and otherwise reuses one of the bound names.  The whole generation is a
//! function of the budget, the counter, the configuration and the bindings,
//! as [`gen_spec`] states, which keeps runs reproducible.

use crate::catalog::{catalog_spec, instruction_catalog, CATALOG_LEN};
use crate::config::Config;
use crate::program::{pview_seq, Literal, Program, ProgView};
use crate::rng::{draw_in_range, reduce_in_range, rng_advance, rng_draw, Rng};
use crate::state::lemma_bview_seq;
use crate::value::{Real, SCALE};
use vstd::prelude::*;

verus! {

/// One freshly drawn atom: a literal of a scalar domain or an instruction
/// from the catalogue, together with the counter after the draws.
pub open spec fn gen_atom_spec(r: u64, cfg: Config, binds: Seq<(u64, ProgView)>) -> (
    ProgView,
    u64,
) {
    let kind = rng_draw(r) % 5;
    let r1 = rng_advance(r);
    let v = rng_draw(r1);
    let r2 = rng_advance(r1);
    if kind == 0 {
        (ProgView::Literal(Literal::Boolean(v & 1 == 1)), r2)
    } else if kind == 1 {
        (
            ProgView::Literal(
                Literal::Integer(
                    draw_in_range(v, cfg.min_random_integer, cfg.max_random_integer) as i64,
                ),
            ),
            r2,
        )
    } else if kind == 2 {
        (
            ProgView::Literal(
                Literal::Float(
                    (Real {
                        units: draw_in_range(
                            v,
                            cfg.min_random_float.units,
                            cfg.max_random_float.units,
                        ) as i64,
                    }),
                ),
            ),
            r2,
        )
    } else if kind == 3 {
        let n = rng_draw(r2);
        let r3 = rng_advance(r2);
        if binds.len() > 0 && (v % (SCALE as u64)) as int >= cfg.new_erc_name_probability.units {
            (
                ProgView::Literal(
                    Literal::Name(binds[(n as int) % (binds.len() as int)].0),
                ),
                r3,
            )
        } else {
            (ProgView::Literal(Literal::Name(n)), r3)
        }
    } else {
        (
            ProgView::Instruction(catalog_spec()[(v as int) % (CATALOG_LEN as int)]),
            r2,
        )
    }
}

/// A random tree of at most `n` points (at least one).
pub open spec fn gen_spec(n: int, r: u64, cfg: Config, binds: Seq<(u64, ProgView)>) -> (
    ProgView,
    u64,
)
    decreases n, 0int,
{
    if n <= 1 {
        gen_atom_spec(r, cfg, binds)
    } else {
        let d = rng_draw(r);
        let r1 = rng_advance(r);
        if d % 4 == 0 {
            gen_atom_spec(r1, cfg, binds)
        } else {
            let rest = gen_list_spec(n - 1, r1, cfg, binds);
            (ProgView::List(rest.0), rest.1)
        }
    }
}

/// Random children spending at most `budget` points in all.
pub open spec fn gen_list_spec(budget: int, r: u64, cfg: Config, binds: Seq<(u64, ProgView)>) -> (
    Seq<ProgView>,
    u64,
)
    decreases budget, 1int,
{
    if budget <= 0 {
        (Seq::empty(), r)
    } else {
        let d = rng_draw(r);
        let r1 = rng_advance(r);
        let k = 1 + (d as int) % budget;
        let child = gen_spec(k, r1, cfg, binds);
        let rest = gen_list_spec(budget - k, child.1, cfg, binds);
        (seq![child.0] + rest.0, rest.1)
    }
}

/// Draws one atom, exactly as [`gen_atom_spec`] says.
fn gen_atom(rng: &mut Rng, cfg: &Config, bindings: &Vec<(u64, Program)>) -> (p: Program)
    requires
        cfg.wf(),
    ensures
        (p@, final(rng).counter) == gen_atom_spec(
            old(rng).counter,
            *cfg,
            crate::state::bview_seq(bindings@),
        ),
{
    let kind = rng.next_u64() % 5;
    let v = rng.next_u64();
    if kind == 0 {
        Program::Literal(Literal::Boolean(v & 1 == 1))
    } else if kind == 1 {
        Program::Literal(
            Literal::Integer(
                reduce_in_range(v, cfg.min_random_integer, cfg.max_random_integer),
            ),
        )
    } else if kind == 2 {
        Program::Literal(
            Literal::Float(
                Real {
                    units: reduce_in_range(
                        v,
                        cfg.min_random_float.units,
                        cfg.max_random_float.units,
                    ),
                },
            ),
        )
    } else if kind == 3 {
        let n = rng.next_u64();
        proof {
            lemma_bview_seq(bindings@);
        }
        if bindings.len() > 0 && (v % (SCALE as u64)) as i64
            >= cfg.new_erc_name_probability.units {
            let idx = (n % (bindings.len() as u64)) as usize;
            Program::Literal(Literal::Name(bindings[idx].0))
        } else {
            Program::Literal(Literal::Name(n))
        }
    } else {
        let cat = instruction_catalog();
        let idx = (v % (CATALOG_LEN as u64)) as usize;
        Program::Instruction(cat[idx])
    }
}

/// Grows a random tree of at most `n` points, exactly as [`gen_spec`] says.
pub fn gen_code(n: usize, rng: &mut Rng, cfg: &Config, bindings: &Vec<(u64, Program)>) -> (p:
    Program)
    requires
        cfg.wf(),
    ensures
        (p@, final(rng).counter) == gen_spec(
            n as int,
            old(rng).counter,
            *cfg,
            crate::state::bview_seq(bindings@),
        ),
    decreases n, 0int,
{
    if n <= 1 {
        gen_atom(rng, cfg, bindings)
    } else {
        let d = rng.next_u64();
        if d % 4 == 0 {
            gen_atom(rng, cfg, bindings)
        } else {
            let cs = gen_code_list(n - 1, rng, cfg, bindings);
            Program::List(cs)
        }
    }
}

/// Grows random children spending at most `budget` points, exactly as
/// [`gen_list_spec`] says.
fn gen_code_list(budget: usize, rng: &mut Rng, cfg: &Config, bindings: &Vec<(u64, Program)>) -> (v:
    Vec<Program>)
    requires
        cfg.wf(),
    ensures
        (pview_seq(v@), final(rng).counter) == gen_list_spec(
            budget as int,
            old(rng).counter,
            *cfg,
            crate::state::bview_seq(bindings@),
        ),
    decreases budget, 1int,
{
    if budget == 0 {
        let v: Vec<Program> = Vec::new();
        proof {
            assert(pview_seq(v@) =~= Seq::<ProgView>::empty());
        }
        v
    } else {
        let ghost binds = crate::state::bview_seq(bindings@);
        let d = rng.next_u64();
        let k: usize = 1 + ((d % (budget as u64)) as usize);
        let child = gen_code(k, rng, cfg, bindings);
        let ghost rc = rng.counter;
        let mut rest = gen_code_list(budget - k, rng, cfg, bindings);
        proof {
            crate::program::lemma_pview_seq(rest@);
        }
        rest.insert(0, child);
        proof {
            crate::program::lemma_pview_seq(rest@);
            assert(pview_seq(rest@) =~= seq![child@] + gen_list_spec(
                budget - k,
                rc,
                *cfg,
                binds,
            ).0);
        }
        rest
    }
}

} // verus!
