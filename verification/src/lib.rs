//! Execution core for a homoiconic, stack-based language used as the
//! substrate for genetic-programming search.
//!
//! Programs are finite trees of instructions, literals and lists.  The
//! interpreter owns six typed stacks (boolean, code, exec, float, integer,
//! name); the exec stack doubles as the control stack.  Evaluation pops the
//! top of the exec stack, dispatches it, and counts the step against a
//! configured budget, so that arbitrary (possibly non-terminating) evolved
//! code runs deterministically, without panics, and within bounded work.

pub mod boolean;
pub mod catalog;
pub mod code;
pub mod config;
pub mod dispatch;
pub mod exec_ops;
pub mod float;
pub mod gencode;
pub mod integer;
pub mod interp;
pub mod name;
pub mod program;
pub mod rng;
pub mod stack;
pub mod state;
pub mod value;
