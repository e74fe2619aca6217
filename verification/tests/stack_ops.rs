use push_core::program::{tree_eq, Literal, Program};
use push_core::stack::Stack;

#[test]
fn it_works() {}

#[test]
fn push_pop_round_trip_integers() {
    let mut s: Stack<i64> = Stack::new();
    s.push(41);
    s.push(7);
    assert_eq!(s.pop(), Some(7));
    assert_eq!(s.pop(), Some(41));
    assert_eq!(s.pop(), None);
}

#[test]
fn push_pop_round_trip_programs() {
    let mut s: Stack<Program> = Stack::new();
    s.push(Program::Literal(Literal::Integer(3)));
    let back = s.pop().unwrap();
    assert!(tree_eq(&back, &Program::Literal(Literal::Integer(3))));
    assert_eq!(s.len(), 0);
}

#[test]
fn mutating_ops_on_empty_stack_are_no_ops() {
    let mut s: Stack<i64> = Stack::new();
    s.dup();
    s.swap();
    s.rot();
    s.shove(0);
    s.yank(0);
    s.yank_dup(0);
    s.flush();
    assert_eq!(s.len(), 0);
    assert_eq!(s.pop(), None);
}

#[test]
fn out_of_range_depth_is_a_no_op() {
    let mut s: Stack<i64> = Stack::new();
    s.push(1);
    s.push(2);
    s.shove(5);
    s.yank(2);
    s.yank_dup(9);
    assert_eq!(s.len(), 2);
    assert_eq!(s.pop(), Some(2));
    assert_eq!(s.pop(), Some(1));
}

#[test]
fn duplicate_then_two_pops_are_equal() {
    let mut s: Stack<i64> = Stack::new();
    s.push(13);
    s.dup();
    let a = s.pop().unwrap();
    let b = s.pop().unwrap();
    assert_eq!(a, b);
    assert_eq!(a, 13);
}

#[test]
fn duplicate_then_two_pops_are_equal_programs() {
    let mut s: Stack<Program> = Stack::new();
    s.push(Program::List(vec![
        Program::Literal(Literal::Boolean(true)),
        Program::Literal(Literal::Integer(8)),
    ]));
    s.dup();
    let a = s.pop().unwrap();
    let b = s.pop().unwrap();
    assert!(tree_eq(&a, &b));
}

#[test]
fn rotate_three_times_restores_order() {
    let mut s: Stack<i64> = Stack::new();
    s.push(1);
    s.push(2);
    s.push(3);
    s.rot();
    s.rot();
    s.rot();
    assert_eq!(s.pop(), Some(3));
    assert_eq!(s.pop(), Some(2));
    assert_eq!(s.pop(), Some(1));
}

#[test]
fn rotate_moves_depth_two_to_top() {
    let mut s: Stack<i64> = Stack::new();
    s.push(10);
    s.push(20);
    s.push(30);
    s.rot();
    assert_eq!(s.pop(), Some(10));
    assert_eq!(s.pop(), Some(30));
    assert_eq!(s.pop(), Some(20));
}

#[test]
fn shove_reinserts_top_at_depth() {
    let mut s: Stack<i64> = Stack::new();
    s.push(1);
    s.push(2);
    s.push(3);
    s.push(4);
    s.shove(2);
    assert_eq!(s.pop(), Some(3));
    assert_eq!(s.pop(), Some(2));
    assert_eq!(s.pop(), Some(4));
    assert_eq!(s.pop(), Some(1));
}

#[test]
fn yank_moves_depth_to_top() {
    let mut s: Stack<i64> = Stack::new();
    s.push(1);
    s.push(2);
    s.push(3);
    s.yank(2);
    assert_eq!(s.pop(), Some(1));
    assert_eq!(s.pop(), Some(3));
    assert_eq!(s.pop(), Some(2));
}

#[test]
fn yank_dup_copies_depth_to_top() {
    let mut s: Stack<i64> = Stack::new();
    s.push(1);
    s.push(2);
    s.push(3);
    s.yank_dup(2);
    assert_eq!(s.len(), 4);
    assert_eq!(s.pop(), Some(1));
    assert_eq!(s.pop(), Some(3));
    assert_eq!(s.pop(), Some(2));
    assert_eq!(s.pop(), Some(1));
}

#[test]
fn get_reads_by_depth_without_removing() {
    let mut s: Stack<i64> = Stack::new();
    s.push(5);
    s.push(6);
    assert_eq!(s.get(0), Some(&6));
    assert_eq!(s.get(1), Some(&5));
    assert_eq!(s.get(2), None);
    assert_eq!(s.len(), 2);
}
