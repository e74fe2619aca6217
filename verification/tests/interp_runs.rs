use push_core::config::Config;
use push_core::interp::{Interpreter, RunReason};
use push_core::program::{tree_eq, Boolean, Exec, Instruction, Integer, Literal, Program};
use push_core::rng::Rng;
use push_core::state::State;
use push_core::value::Real;

fn test_config(seed: u64, limit: usize, top_level_pop_code: bool) -> Config {
    Config::new(
        -100,
        100,
        Real::from_units(-5_000_000),
        Real::from_units(5_000_000),
        25,
        200,
        limit,
        Real::from_units(500_000),
        seed,
        top_level_pop_code,
    )
    .unwrap()
}

fn lit_i(i: i64) -> Program {
    Program::Literal(Literal::Integer(i))
}

#[test]
fn addition_program_runs_to_completion() {
    let mut interp = Interpreter::new(test_config(1, 100, false));
    interp.state.integer_stack.push(3);
    interp.state.integer_stack.push(4);
    interp.load(Program::List(vec![Program::Instruction(Instruction::Integer(Integer::Plus))]));
    let outcome = interp.run();
    assert_eq!(outcome.reason, RunReason::Complete);
    assert_eq!(interp.state.integer_stack.pop(), Some(7));
    assert_eq!(interp.state.integer_stack.pop(), None);
    assert_eq!(interp.state.exec_stack.len(), 0);
}

#[test]
fn literal_then_negation_leaves_false() {
    // The first child runs first, so the literal must come before the
    // sub-list holding the negation for the negation to see it.
    let mut interp = Interpreter::new(test_config(1, 100, false));
    interp.load(Program::List(vec![
        Program::Literal(Literal::Boolean(true)),
        Program::List(vec![Program::Instruction(Instruction::Boolean(Boolean::Not))]),
    ]));
    let outcome = interp.run();
    assert_eq!(outcome.reason, RunReason::Complete);
    assert_eq!(interp.state.boolean_stack.pop(), Some(false));
    assert_eq!(interp.state.boolean_stack.pop(), None);
}

#[test]
fn expansion_runs_first_child_first() {
    // With the negation listed first it runs against an empty boolean
    // stack, a no-op, and the literal lands afterwards untouched.
    let mut interp = Interpreter::new(test_config(1, 100, false));
    interp.load(Program::List(vec![
        Program::List(vec![Program::Instruction(Instruction::Boolean(Boolean::Not))]),
        Program::Literal(Literal::Boolean(true)),
    ]));
    let outcome = interp.run();
    assert_eq!(outcome.reason, RunReason::Complete);
    assert_eq!(interp.state.boolean_stack.pop(), Some(true));
    assert_eq!(interp.state.boolean_stack.pop(), None);
}

#[test]
fn k_combinator_discards_the_second_item() {
    let cfg = test_config(1, 100, false);
    let mut state = State::new();
    let mut rng = Rng::seeded(cfg.random_seed);
    let g = lit_i(1);
    let f = lit_i(2);
    state.exec_stack.push(g);
    state.exec_stack.push(f);
    Exec::K.dispatch(&mut state, &cfg, &mut rng);
    assert_eq!(state.exec_stack.len(), 1);
    let kept = state.exec_stack.pop().unwrap();
    assert!(tree_eq(&kept, &lit_i(2)));
}

#[test]
fn division_by_zero_leaves_the_stack_unchanged() {
    let cfg = test_config(1, 100, false);
    let mut state = State::new();
    let mut rng = Rng::seeded(cfg.random_seed);
    state.integer_stack.push(5);
    state.integer_stack.push(0);
    Integer::Divide.dispatch(&mut state, &cfg, &mut rng);
    assert_eq!(state.integer_stack.pop(), Some(0));
    assert_eq!(state.integer_stack.pop(), Some(5));
    assert_eq!(state.integer_stack.pop(), None);
}

#[test]
fn modulo_by_zero_leaves_the_stack_unchanged() {
    let cfg = test_config(1, 100, false);
    let mut state = State::new();
    let mut rng = Rng::seeded(cfg.random_seed);
    state.integer_stack.push(9);
    state.integer_stack.push(0);
    Integer::Mod.dispatch(&mut state, &cfg, &mut rng);
    assert_eq!(state.integer_stack.pop(), Some(0));
    assert_eq!(state.integer_stack.pop(), Some(9));
}

#[test]
fn runaway_recursion_is_cut_at_the_step_budget() {
    // The Y combinator re-pushes its wrapper forever; the run must stop
    // after exactly the configured number of dispatch steps.
    let limit = 37;
    let mut interp = Interpreter::new(test_config(1, limit, false));
    interp.load(Program::List(vec![
        Program::Instruction(Instruction::Exec(Exec::Y)),
        lit_i(1),
    ]));
    let outcome = interp.run();
    assert_eq!(outcome.reason, RunReason::BudgetExhausted);
    assert_eq!(outcome.steps, limit);
}

#[test]
fn completed_runs_report_their_step_count() {
    let mut interp = Interpreter::new(test_config(1, 100, false));
    interp.load(Program::List(vec![lit_i(1), lit_i(2)]));
    let outcome = interp.run();
    assert_eq!(outcome.reason, RunReason::Complete);
    // One step expands the list, one runs each literal.
    assert_eq!(outcome.steps, 3);
}

#[test]
fn identical_seeds_give_identical_runs() {
    let program = || {
        Program::List(vec![
            Program::Instruction(Instruction::Integer(Integer::Rand)),
            Program::Instruction(Instruction::Float(push_core::program::Float::Rand)),
            Program::Instruction(Instruction::Boolean(Boolean::Rand)),
            Program::Instruction(Instruction::Code(push_core::program::Code::Rand)),
            Program::Instruction(Instruction::Integer(Integer::Rand)),
        ])
    };
    let mut a = Interpreter::new(test_config(99, 1000, false));
    let mut b = Interpreter::new(test_config(99, 1000, false));
    a.load(program());
    b.load(program());
    let oa = a.run();
    let ob = b.run();
    assert_eq!(oa, ob);
    assert_eq!(a.state.integer_stack.len(), b.state.integer_stack.len());
    while a.state.integer_stack.len() > 0 {
        assert_eq!(a.state.integer_stack.pop(), b.state.integer_stack.pop());
    }
    assert_eq!(a.state.boolean_stack.pop(), b.state.boolean_stack.pop());
    let fa = a.state.float_stack.pop().unwrap();
    let fb = b.state.float_stack.pop().unwrap();
    assert_eq!(fa.units, fb.units);
    let ca = a.state.code_stack.pop().unwrap();
    let cb = b.state.code_stack.pop().unwrap();
    assert!(tree_eq(&ca, &cb));
}

#[test]
fn defined_names_expand_to_their_definitions() {
    let mut interp = Interpreter::new(test_config(1, 100, false));
    interp.load(Program::List(vec![
        lit_i(42),
        Program::Literal(Literal::Name(7)),
        Program::Instruction(Instruction::Integer(Integer::Define)),
        Program::Literal(Literal::Name(7)),
    ]));
    let outcome = interp.run();
    assert_eq!(outcome.reason, RunReason::Complete);
    assert_eq!(interp.state.integer_stack.pop(), Some(42));
    assert_eq!(interp.state.integer_stack.pop(), None);
}

#[test]
fn quoted_names_stay_on_the_name_stack() {
    let mut interp = Interpreter::new(test_config(1, 100, false));
    interp.load(Program::List(vec![
        lit_i(42),
        Program::Literal(Literal::Name(7)),
        Program::Instruction(Instruction::Integer(Integer::Define)),
        Program::Instruction(Instruction::Name(push_core::program::Name::Quote)),
        Program::Literal(Literal::Name(7)),
    ]));
    let outcome = interp.run();
    assert_eq!(outcome.reason, RunReason::Complete);
    assert_eq!(interp.state.name_stack.pop(), Some(7));
    assert_eq!(interp.state.integer_stack.pop(), None);
}

#[test]
fn top_level_pop_code_removes_the_result() {
    let mut with_pop = Interpreter::new(test_config(1, 100, true));
    with_pop.load(Program::List(vec![
        lit_i(5),
        Program::Instruction(Instruction::Code(push_core::program::Code::FromInteger)),
    ]));
    with_pop.run();
    assert_eq!(with_pop.state.code_stack.len(), 0);

    let mut without = Interpreter::new(test_config(1, 100, false));
    without.load(Program::List(vec![
        lit_i(5),
        Program::Instruction(Instruction::Code(push_core::program::Code::FromInteger)),
    ]));
    without.run();
    assert_eq!(without.state.code_stack.len(), 1);
}

#[test]
fn counted_loops_run_their_body_each_iteration() {
    // Count down a three-iteration loop whose body pushes 5; each
    // iteration also records its index.
    let mut interp = Interpreter::new(test_config(1, 1000, false));
    interp.load(Program::List(vec![
        lit_i(3),
        Program::Instruction(Instruction::Exec(Exec::DoStarCount)),
        lit_i(5),
    ]));
    let outcome = interp.run();
    assert_eq!(outcome.reason, RunReason::Complete);
    let mut ints = Vec::new();
    while let Some(v) = interp.state.integer_stack.pop() {
        ints.push(v);
    }
    ints.reverse();
    assert_eq!(ints, vec![0, 5, 1, 5, 2, 5]);
}

#[test]
fn exec_if_selects_by_the_boolean() {
    let cfg = test_config(1, 100, false);
    let mut state = State::new();
    let mut rng = Rng::seeded(1);
    state.boolean_stack.push(true);
    state.exec_stack.push(lit_i(1));
    state.exec_stack.push(lit_i(2));
    Exec::If.dispatch(&mut state, &cfg, &mut rng);
    assert_eq!(state.exec_stack.len(), 1);
    let kept = state.exec_stack.pop().unwrap();
    assert!(tree_eq(&kept, &lit_i(2)));

    let mut state2 = State::new();
    state2.boolean_stack.push(false);
    state2.exec_stack.push(lit_i(1));
    state2.exec_stack.push(lit_i(2));
    Exec::If.dispatch(&mut state2, &cfg, &mut rng);
    let kept2 = state2.exec_stack.pop().unwrap();
    assert!(tree_eq(&kept2, &lit_i(1)));
}

#[test]
fn s_combinator_reassembles_the_application() {
    let cfg = test_config(1, 100, false);
    let mut state = State::new();
    let mut rng = Rng::seeded(1);
    state.exec_stack.push(lit_i(3)); // z
    state.exec_stack.push(lit_i(2)); // y
    state.exec_stack.push(lit_i(1)); // x
    Exec::S.dispatch(&mut state, &cfg, &mut rng);
    assert_eq!(state.exec_stack.len(), 3);
    let x = state.exec_stack.pop().unwrap();
    let z = state.exec_stack.pop().unwrap();
    let yz = state.exec_stack.pop().unwrap();
    assert!(tree_eq(&x, &lit_i(1)));
    assert!(tree_eq(&z, &lit_i(3)));
    assert!(tree_eq(&yz, &Program::List(vec![lit_i(2), lit_i(3)])));
}

#[test]
fn advance_reports_whether_a_step_was_taken() {
    let cfg = test_config(1, 100, false);
    let mut state = State::new();
    let mut rng = Rng::seeded(1);
    assert!(!state.advance(&cfg, &mut rng));
    state.exec_stack.push(lit_i(9));
    assert!(state.advance(&cfg, &mut rng));
    assert_eq!(state.integer_stack.pop(), Some(9));
}
