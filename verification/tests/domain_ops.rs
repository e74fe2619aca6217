use push_core::config::Config;
use push_core::program::{Boolean, Exec, Float, Instruction, Integer, Literal, Name, Program};
use push_core::rng::Rng;
use push_core::state::State;
use push_core::value::Real;

fn cfg() -> Config {
    Config::new(
        -100,
        100,
        Real::from_units(-5_000_000),
        Real::from_units(5_000_000),
        25,
        200,
        1000,
        Real::from_units(500_000),
        13,
        false,
    )
    .unwrap()
}

#[test]
fn boolean_logic_pops_two_and_pushes_one() {
    let c = cfg();
    let mut rng = Rng::seeded(1);
    let mut state = State::new();
    state.boolean_stack.push(true);
    state.boolean_stack.push(false);
    Boolean::And.dispatch(&mut state, &c, &mut rng);
    assert_eq!(state.boolean_stack.pop(), Some(false));
    assert_eq!(state.boolean_stack.pop(), None);

    state.boolean_stack.push(true);
    state.boolean_stack.push(false);
    Boolean::Or.dispatch(&mut state, &c, &mut rng);
    assert_eq!(state.boolean_stack.pop(), Some(true));

    state.boolean_stack.push(true);
    Boolean::Not.dispatch(&mut state, &c, &mut rng);
    assert_eq!(state.boolean_stack.pop(), Some(false));
}

#[test]
fn comparisons_read_the_second_operand_as_left() {
    let c = cfg();
    let mut rng = Rng::seeded(1);
    let mut state = State::new();
    state.integer_stack.push(2);
    state.integer_stack.push(5);
    Integer::LessThan.dispatch(&mut state, &c, &mut rng);
    assert_eq!(state.boolean_stack.pop(), Some(true));

    state.integer_stack.push(2);
    state.integer_stack.push(5);
    Integer::Minus.dispatch(&mut state, &c, &mut rng);
    assert_eq!(state.integer_stack.pop(), Some(-3));
}

#[test]
fn float_arithmetic_runs_on_the_float_stack() {
    let c = cfg();
    let mut rng = Rng::seeded(1);
    let mut state = State::new();
    state.float_stack.push(Real::from_units(2_500_000));
    state.float_stack.push(Real::from_units(4_000_000));
    Float::Times.dispatch(&mut state, &c, &mut rng);
    assert_eq!(state.float_stack.pop().unwrap().units, 10_000_000);

    state.float_stack.push(Real::from_units(3_000_000));
    state.float_stack.push(Real::from_units(0));
    Float::Divide.dispatch(&mut state, &c, &mut rng);
    assert_eq!(state.float_stack.pop().unwrap().units, 0);
    assert_eq!(state.float_stack.pop().unwrap().units, 3_000_000);
}

#[test]
fn conversions_move_values_between_domains() {
    let c = cfg();
    let mut rng = Rng::seeded(1);
    let mut state = State::new();
    state.integer_stack.push(3);
    Float::FromInteger.dispatch(&mut state, &c, &mut rng);
    assert_eq!(state.float_stack.pop().unwrap().units, 3_000_000);

    state.float_stack.push(Real::from_units(-1));
    Boolean::FromFloat.dispatch(&mut state, &c, &mut rng);
    assert_eq!(state.boolean_stack.pop(), Some(true));

    state.boolean_stack.push(true);
    Integer::FromBoolean.dispatch(&mut state, &c, &mut rng);
    assert_eq!(state.integer_stack.pop(), Some(1));
}

#[test]
fn stack_depth_reports_lengths() {
    let c = cfg();
    let mut rng = Rng::seeded(1);
    let mut state = State::new();
    state.boolean_stack.push(true);
    state.boolean_stack.push(false);
    Boolean::StackDepth.dispatch(&mut state, &c, &mut rng);
    assert_eq!(state.integer_stack.pop(), Some(2));

    state.integer_stack.push(7);
    Integer::StackDepth.dispatch(&mut state, &c, &mut rng);
    assert_eq!(state.integer_stack.pop(), Some(1));
}

#[test]
fn depth_arguments_are_clamped_not_rejected() {
    let c = cfg();
    let mut rng = Rng::seeded(1);
    let mut state = State::new();
    state.boolean_stack.push(true);
    state.boolean_stack.push(false);
    state.boolean_stack.push(true);
    // A negative depth clamps to 0: yanking depth 0 leaves order as is.
    state.integer_stack.push(-9);
    Boolean::Yank.dispatch(&mut state, &c, &mut rng);
    assert_eq!(state.boolean_stack.len(), 3);
    assert_eq!(state.boolean_stack.pop(), Some(true));
    // A too-large depth clamps to the bottom.
    state.integer_stack.push(99);
    Boolean::Yank.dispatch(&mut state, &c, &mut rng);
    assert_eq!(state.boolean_stack.pop(), Some(true));
    assert_eq!(state.boolean_stack.pop(), Some(false));
}

#[test]
fn random_draws_stay_in_the_configured_ranges() {
    let c = cfg();
    let mut rng = Rng::seeded(21);
    let mut state = State::new();
    for _ in 0..20 {
        Integer::Rand.dispatch(&mut state, &c, &mut rng);
        let v = state.integer_stack.pop().unwrap();
        assert!(v >= -100 && v <= 100);
        Float::Rand.dispatch(&mut state, &c, &mut rng);
        let f = state.float_stack.pop().unwrap();
        assert!(f.units >= -5_000_000 && f.units <= 5_000_000);
    }
}

#[test]
fn rand_bound_name_reuses_a_bound_name() {
    let c = cfg();
    let mut rng = Rng::seeded(3);
    let mut state = State::new();
    Name::RandBoundName.dispatch(&mut state, &c, &mut rng);
    assert_eq!(state.name_stack.len(), 0);
    state.bind(77, Program::Literal(Literal::Integer(1)));
    Name::RandBoundName.dispatch(&mut state, &c, &mut rng);
    assert_eq!(state.name_stack.pop(), Some(77));
}

#[test]
fn do_times_ignores_the_loop_index() {
    let c = cfg();
    let mut interp = push_core::interp::Interpreter::new(c);
    interp.load(Program::List(vec![
        Program::Literal(Literal::Integer(3)),
        Program::Instruction(Instruction::Exec(Exec::DoStarTimes)),
        Program::Literal(Literal::Integer(5)),
    ]));
    let outcome = interp.run();
    assert_eq!(outcome.reason, push_core::interp::RunReason::Complete);
    let mut ints = Vec::new();
    while let Some(v) = interp.state.integer_stack.pop() {
        ints.push(v);
    }
    ints.reverse();
    // Each iteration pops its index before the body runs, leaving only
    // the three bodies' pushes.
    assert_eq!(ints, vec![5, 5, 5]);
}

#[test]
fn define_binds_and_shadows() {
    let c = cfg();
    let mut rng = Rng::seeded(1);
    let mut state = State::new();
    state.name_stack.push(4);
    state.boolean_stack.push(true);
    Boolean::Define.dispatch(&mut state, &c, &mut rng);
    state.name_stack.push(4);
    state.boolean_stack.push(false);
    Boolean::Define.dispatch(&mut state, &c, &mut rng);
    let bound = state.lookup_binding(4).unwrap();
    assert!(push_core::program::tree_eq(
        &bound,
        &Program::Literal(Literal::Boolean(false))
    ));
}
