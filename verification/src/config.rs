//! The immutable per-run configuration.
//!
//! A configuration is validated once, when it is built; a run then treats it
//! as read-only.  Construction is the only place in the core where a hard
//! failure is appropriate: an inverted random range or an empty budget is a
//! caller's mistake, not a property of evolved code, and is rejected before
//! any run starts.

use crate::value::{Real, SCALE};
use vstd::prelude::*;

verus! {

/// Why a configuration was rejected.
#[derive(Clone, Copy, PartialEq, Eq, Structural, Debug)]
pub enum ConfigError {
    /// The integer range has its minimum above its maximum.
    InvertedIntegerRange,
    /// The float range has its minimum above its maximum.
    InvertedFloatRange,
    /// The evaluation step budget is zero.
    ZeroEvalPushLimit,
    /// The whole-program point bound is zero.
    ZeroProgramPoints,
    /// The random-expression point bound is zero.
    ZeroRandomExpressionPoints,
    /// The fresh-name probability lies outside `[0, 1]`.
    InvalidNameProbability,
}

/// Parameters governing one run: random ranges, generated-code size bounds,
/// the step budget, determinism, and how the top-level result is read.
#[derive(Clone, Copy, PartialEq, Eq, Structural, Debug)]
pub struct Config {
    /// Smallest integer a random-integer instruction may produce.
    pub min_random_integer: i64,
    /// Largest integer a random-integer instruction may produce.
    pub max_random_integer: i64,
    /// Smallest real a random-float instruction may produce.
    pub min_random_float: Real,
    /// Largest real a random-float instruction may produce.
    pub max_random_float: Real,
    /// Point bound on each randomly generated sub-expression.
    pub max_points_in_random_expressions: usize,
    /// Point bound on the whole program.
    pub max_points_in_program: usize,
    /// Evaluation step budget for one run.
    pub eval_push_limit: usize,
    /// Probability, as a real in `[0, 1]`, that a freshly generated name is
    /// novel rather than reused from the bound names.
    pub new_erc_name_probability: Real,
    /// Seed of the deterministic random source.
    pub random_seed: u64,
    /// Whether the top-level result is popped from the code stack when the
    /// run concludes, rather than read without removing.
    pub top_level_pop_code: bool,
}

impl Config {
    /// Every condition a usable configuration meets.
    pub open spec fn wf(self) -> bool {
        &&& self.min_random_integer <= self.max_random_integer
        &&& self.min_random_float.units <= self.max_random_float.units
        &&& self.eval_push_limit > 0
        &&& self.max_points_in_program > 0
        &&& self.max_points_in_random_expressions > 0
        &&& 0 <= self.new_erc_name_probability.units <= SCALE
    }

    /// Builds a validated configuration, or says exactly which condition
    /// failed; conditions are checked in the order of the error variants.
    pub fn new(
        min_random_integer: i64,
        max_random_integer: i64,
        min_random_float: Real,
        max_random_float: Real,
        max_points_in_random_expressions: usize,
        max_points_in_program: usize,
        eval_push_limit: usize,
        new_erc_name_probability: Real,
        random_seed: u64,
        top_level_pop_code: bool,
    ) -> (r: Result<Config, ConfigError>)
        ensures
            r matches Ok(c) ==> c == (Config {
                min_random_integer,
                max_random_integer,
                min_random_float,
                max_random_float,
                max_points_in_random_expressions,
                max_points_in_program,
                eval_push_limit,
                new_erc_name_probability,
                random_seed,
                top_level_pop_code,
            }) && c.wf(),
            r == Err::<Config, ConfigError>(ConfigError::InvertedIntegerRange) <==> !(
            min_random_integer <= max_random_integer),
            r == Err::<Config, ConfigError>(ConfigError::InvertedFloatRange) <==> (
            min_random_integer <= max_random_integer && !(min_random_float.units
                <= max_random_float.units)),
            r == Err::<Config, ConfigError>(ConfigError::ZeroEvalPushLimit) <==> (
            min_random_integer <= max_random_integer && min_random_float.units
                <= max_random_float.units && eval_push_limit == 0),
            r == Err::<Config, ConfigError>(ConfigError::ZeroProgramPoints) <==> (
            min_random_integer <= max_random_integer && min_random_float.units
                <= max_random_float.units && eval_push_limit > 0 && max_points_in_program == 0),
            r == Err::<Config, ConfigError>(ConfigError::ZeroRandomExpressionPoints) <==> (
            min_random_integer <= max_random_integer && min_random_float.units
                <= max_random_float.units && eval_push_limit > 0 && max_points_in_program > 0
                && max_points_in_random_expressions == 0),
            r == Err::<Config, ConfigError>(ConfigError::InvalidNameProbability) <==> (
            min_random_integer <= max_random_integer && min_random_float.units
                <= max_random_float.units && eval_push_limit > 0 && max_points_in_program > 0
                && max_points_in_random_expressions > 0 && !(0 <= new_erc_name_probability.units
                <= SCALE)),
            r is Ok <==> (min_random_integer <= max_random_integer && min_random_float.units
                <= max_random_float.units && eval_push_limit > 0 && max_points_in_program > 0
                && max_points_in_random_expressions > 0 && 0 <= new_erc_name_probability.units
                <= SCALE),
    {
        if min_random_integer > max_random_integer {
            Err(ConfigError::InvertedIntegerRange)
        } else if min_random_float.units > max_random_float.units {
            Err(ConfigError::InvertedFloatRange)
        } else if eval_push_limit == 0 {
            Err(ConfigError::ZeroEvalPushLimit)
        } else if max_points_in_program == 0 {
            Err(ConfigError::ZeroProgramPoints)
        } else if max_points_in_random_expressions == 0 {
            Err(ConfigError::ZeroRandomExpressionPoints)
        } else if new_erc_name_probability.units < 0 || new_erc_name_probability.units > SCALE {
            Err(ConfigError::InvalidNameProbability)
        } else {
            Ok(
                Config {
                    min_random_integer,
                    max_random_integer,
                    min_random_float,
                    max_random_float,
                    max_points_in_random_expressions,
                    max_points_in_program,
                    eval_push_limit,
                    new_erc_name_probability,
                    random_seed,
                    top_level_pop_code,
                },
            )
        }
    }
}

} // verus!
