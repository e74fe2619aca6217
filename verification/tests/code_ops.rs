use push_core::catalog::CATALOG_LEN;
use push_core::config::Config;
use push_core::program::{count_points, tree_eq, Code, Instruction, Literal, Program};
use push_core::rng::Rng;
use push_core::state::State;
use push_core::value::Real;

fn cfg() -> Config {
    Config::new(
        -100,
        100,
        Real::from_units(-5_000_000),
        Real::from_units(5_000_000),
        25,
        200,
        1000,
        Real::from_units(500_000),
        11,
        false,
    )
    .unwrap()
}

fn lit_i(i: i64) -> Program {
    Program::Literal(Literal::Integer(i))
}

fn run_code(state: &mut State, instr: Code) {
    let c = cfg();
    let mut rng = Rng::seeded(c.random_seed);
    instr.dispatch(state, &c, &mut rng);
}

#[test]
fn car_takes_the_first_element() {
    let mut state = State::new();
    state.code_stack.push(Program::List(vec![lit_i(1), lit_i(2), lit_i(3)]));
    run_code(&mut state, Code::Car);
    let top = state.code_stack.pop().unwrap();
    assert!(tree_eq(&top, &lit_i(1)));
}

#[test]
fn cdr_drops_the_first_element() {
    let mut state = State::new();
    state.code_stack.push(Program::List(vec![lit_i(1), lit_i(2), lit_i(3)]));
    run_code(&mut state, Code::Cdr);
    let top = state.code_stack.pop().unwrap();
    assert!(tree_eq(&top, &Program::List(vec![lit_i(2), lit_i(3)])));
}

#[test]
fn cdr_of_an_atom_is_the_empty_list() {
    let mut state = State::new();
    state.code_stack.push(lit_i(9));
    run_code(&mut state, Code::Cdr);
    let top = state.code_stack.pop().unwrap();
    assert!(tree_eq(&top, &Program::List(vec![])));
}

#[test]
fn cons_prepends_the_second_item() {
    let mut state = State::new();
    state.code_stack.push(lit_i(0));
    state.code_stack.push(Program::List(vec![lit_i(1), lit_i(2)]));
    run_code(&mut state, Code::Cons);
    let top = state.code_stack.pop().unwrap();
    assert!(tree_eq(&top, &Program::List(vec![lit_i(0), lit_i(1), lit_i(2)])));
}

#[test]
fn append_concatenates_both_as_lists() {
    let mut state = State::new();
    state.code_stack.push(Program::List(vec![lit_i(1), lit_i(2)]));
    state.code_stack.push(Program::List(vec![lit_i(3)]));
    run_code(&mut state, Code::Append);
    let top = state.code_stack.pop().unwrap();
    assert!(tree_eq(&top, &Program::List(vec![lit_i(1), lit_i(2), lit_i(3)])));
}

#[test]
fn list_wraps_the_top_two_items() {
    let mut state = State::new();
    state.code_stack.push(lit_i(1));
    state.code_stack.push(lit_i(2));
    run_code(&mut state, Code::List);
    let top = state.code_stack.pop().unwrap();
    assert!(tree_eq(&top, &Program::List(vec![lit_i(1), lit_i(2)])));
}

#[test]
fn atom_and_null_classify_nodes() {
    let mut state = State::new();
    state.code_stack.push(lit_i(1));
    run_code(&mut state, Code::Atom);
    assert_eq!(state.boolean_stack.pop(), Some(true));

    state.code_stack.push(Program::List(vec![]));
    run_code(&mut state, Code::Atom);
    assert_eq!(state.boolean_stack.pop(), Some(false));

    state.code_stack.push(Program::List(vec![]));
    run_code(&mut state, Code::Null);
    assert_eq!(state.boolean_stack.pop(), Some(true));

    state.code_stack.push(Program::List(vec![lit_i(1)]));
    run_code(&mut state, Code::Null);
    assert_eq!(state.boolean_stack.pop(), Some(false));
}

#[test]
fn length_and_size_measure_lists_and_points() {
    let tree = Program::List(vec![lit_i(1), Program::List(vec![lit_i(2), lit_i(3)])]);
    assert_eq!(count_points(&tree), 5);

    let mut state = State::new();
    state.code_stack.push(tree);
    run_code(&mut state, Code::Length);
    assert_eq!(state.integer_stack.pop(), Some(2));

    state.code_stack.push(Program::List(vec![lit_i(1), Program::List(vec![lit_i(2), lit_i(3)])]));
    run_code(&mut state, Code::Size);
    assert_eq!(state.integer_stack.pop(), Some(5));
}

#[test]
fn extract_addresses_subtrees_in_preorder() {
    // Tree [1 [2 3]]: address 0 is the whole tree, 1 the first literal,
    // 2 the inner list, 3 and 4 its literals; addresses are clamped.
    let tree = || Program::List(vec![lit_i(1), Program::List(vec![lit_i(2), lit_i(3)])]);
    for (addr, expect) in [
        (0i64, tree()),
        (1, lit_i(1)),
        (2, Program::List(vec![lit_i(2), lit_i(3)])),
        (3, lit_i(2)),
        (4, lit_i(3)),
        (99, lit_i(3)),
        (-7, tree()),
    ] {
        let mut state = State::new();
        state.code_stack.push(tree());
        state.integer_stack.push(addr);
        run_code(&mut state, Code::Extract);
        let got = state.code_stack.pop().unwrap();
        assert!(tree_eq(&got, &expect), "address {}", addr);
    }
}

#[test]
fn insert_replaces_the_addressed_subtree() {
    let mut state = State::new();
    state.code_stack.push(lit_i(9));
    state.code_stack.push(Program::List(vec![lit_i(1), lit_i(2)]));
    state.integer_stack.push(2);
    run_code(&mut state, Code::Insert);
    let got = state.code_stack.pop().unwrap();
    assert!(tree_eq(&got, &Program::List(vec![lit_i(1), lit_i(9)])));
}

#[test]
fn subst_replaces_every_occurrence() {
    let mut state = State::new();
    state.code_stack.push(lit_i(9)); // replacement
    state.code_stack.push(lit_i(2)); // pattern
    state.code_stack.push(Program::List(vec![lit_i(2), lit_i(1), lit_i(2)]));
    run_code(&mut state, Code::Subst);
    let got = state.code_stack.pop().unwrap();
    assert!(tree_eq(&got, &Program::List(vec![lit_i(9), lit_i(1), lit_i(9)])));
}

#[test]
fn container_finds_the_deepest_enclosing_list() {
    let inner = || Program::List(vec![lit_i(2), lit_i(3)]);
    let tree = || Program::List(vec![lit_i(1), inner()]);
    let mut state = State::new();
    state.code_stack.push(lit_i(3));
    state.code_stack.push(tree());
    run_code(&mut state, Code::Container);
    let got = state.code_stack.pop().unwrap();
    assert!(tree_eq(&got, &inner()));

    let mut none = State::new();
    none.code_stack.push(lit_i(8));
    none.code_stack.push(tree());
    run_code(&mut none, Code::Container);
    let empty = none.code_stack.pop().unwrap();
    assert!(tree_eq(&empty, &Program::List(vec![])));
}

#[test]
fn contains_sees_nested_occurrences() {
    let tree = Program::List(vec![lit_i(1), Program::List(vec![lit_i(2)])]);
    let mut state = State::new();
    state.code_stack.push(tree);
    state.code_stack.push(lit_i(2));
    run_code(&mut state, Code::Contains);
    assert_eq!(state.boolean_stack.pop(), Some(true));
}

#[test]
fn member_and_position_work_on_the_top_level() {
    let mut state = State::new();
    state.code_stack.push(lit_i(2));
    state.code_stack.push(Program::List(vec![lit_i(1), lit_i(2), lit_i(2)]));
    run_code(&mut state, Code::Member);
    assert_eq!(state.boolean_stack.pop(), Some(true));

    state.code_stack.push(lit_i(2));
    state.code_stack.push(Program::List(vec![lit_i(1), lit_i(2), lit_i(2)]));
    run_code(&mut state, Code::Position);
    assert_eq!(state.integer_stack.pop(), Some(1));

    state.code_stack.push(lit_i(8));
    state.code_stack.push(Program::List(vec![lit_i(1)]));
    run_code(&mut state, Code::Position);
    assert_eq!(state.integer_stack.pop(), Some(-1));
}

#[test]
fn nth_and_nthcdr_index_with_clamping() {
    let mut state = State::new();
    state.code_stack.push(Program::List(vec![lit_i(1), lit_i(2), lit_i(3)]));
    state.integer_stack.push(1);
    run_code(&mut state, Code::Nth);
    let got = state.code_stack.pop().unwrap();
    assert!(tree_eq(&got, &lit_i(2)));

    state.code_stack.push(Program::List(vec![lit_i(1), lit_i(2), lit_i(3)]));
    state.integer_stack.push(50);
    run_code(&mut state, Code::Nth);
    let clamped = state.code_stack.pop().unwrap();
    assert!(tree_eq(&clamped, &lit_i(3)));

    state.code_stack.push(Program::List(vec![lit_i(1), lit_i(2), lit_i(3)]));
    state.integer_stack.push(1);
    run_code(&mut state, Code::NthCdr);
    let rest = state.code_stack.pop().unwrap();
    assert!(tree_eq(&rest, &Program::List(vec![lit_i(2), lit_i(3)])));
}

#[test]
fn discrepancy_counts_structural_differences() {
    let mut state = State::new();
    state.code_stack.push(Program::List(vec![lit_i(1), lit_i(2)]));
    state.code_stack.push(Program::List(vec![lit_i(1), lit_i(3)]));
    run_code(&mut state, Code::Discrepancy);
    assert_eq!(state.integer_stack.pop(), Some(1));

    state.code_stack.push(lit_i(4));
    state.code_stack.push(lit_i(4));
    run_code(&mut state, Code::Discrepancy);
    assert_eq!(state.integer_stack.pop(), Some(0));
}

#[test]
fn quote_moves_the_next_exec_item_to_code() {
    let mut state = State::new();
    state.exec_stack.push(lit_i(5));
    run_code(&mut state, Code::Quote);
    assert_eq!(state.exec_stack.len(), 0);
    let got = state.code_stack.pop().unwrap();
    assert!(tree_eq(&got, &lit_i(5)));
}

#[test]
fn definition_pushes_the_bound_code() {
    let mut state = State::new();
    state.bind(3, lit_i(77));
    state.name_stack.push(3);
    run_code(&mut state, Code::Definition);
    let got = state.code_stack.pop().unwrap();
    assert!(tree_eq(&got, &lit_i(77)));
    assert_eq!(state.name_stack.len(), 0);
}

#[test]
fn instructions_pushes_the_whole_catalogue() {
    let mut state = State::new();
    run_code(&mut state, Code::Instructions);
    let got = state.code_stack.pop().unwrap();
    match got {
        Program::List(items) => {
            assert_eq!(items.len(), CATALOG_LEN);
            assert!(tree_eq(
                &items[0],
                &Program::Instruction(Instruction::Boolean(push_core::program::Boolean::Eq))
            ));
        },
        _ => panic!("the catalogue is a list"),
    }
}

#[test]
fn random_code_respects_the_seed() {
    let mut a = State::new();
    let mut b = State::new();
    let c = cfg();
    let mut ra = Rng::seeded(5);
    let mut rb = Rng::seeded(5);
    Code::Rand.dispatch(&mut a, &c, &mut ra);
    Code::Rand.dispatch(&mut b, &c, &mut rb);
    let pa = a.code_stack.pop().unwrap();
    let pb = b.code_stack.pop().unwrap();
    assert!(tree_eq(&pa, &pb));
    assert!(count_points(&pa) <= 25);
}

#[test]
fn code_do_range_counts_between_the_bounds() {
    let c = cfg();
    let mut interp = push_core::interp::Interpreter::new(c);
    interp.state.code_stack.push(lit_i(7));
    interp.state.integer_stack.push(2); // current index
    interp.state.integer_stack.push(4); // destination index
    Code::DoStarRange.dispatch(&mut interp.state, &c, &mut interp.rng);
    let outcome = interp.run();
    assert_eq!(outcome.reason, push_core::interp::RunReason::Complete);
    let mut ints = Vec::new();
    while let Some(v) = interp.state.integer_stack.pop() {
        ints.push(v);
    }
    ints.reverse();
    assert_eq!(ints, vec![2, 7, 3, 7, 4, 7]);
}
