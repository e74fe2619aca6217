use push_core::config::{Config, ConfigError};
use push_core::rng::Rng;
use push_core::value::{int_divide, int_minus, int_modulo, int_plus, int_times, Real, SCALE};

fn rv(units: i64) -> Real {
    Real::from_units(units)
}

#[test]
fn integer_addition_saturates() {
    assert_eq!(int_plus(2, 3), 5);
    assert_eq!(int_plus(i64::MAX, 1), i64::MAX);
    assert_eq!(int_plus(i64::MIN, -1), i64::MIN);
    assert_eq!(int_minus(i64::MIN, 1), i64::MIN);
    assert_eq!(int_minus(5, 9), -4);
}

#[test]
fn integer_multiplication_saturates_by_sign() {
    assert_eq!(int_times(6, 7), 42);
    assert_eq!(int_times(i64::MAX, 2), i64::MAX);
    assert_eq!(int_times(i64::MAX, -2), i64::MIN);
    assert_eq!(int_times(i64::MIN, -1), i64::MAX);
}

#[test]
fn integer_division_truncates_toward_zero() {
    assert_eq!(int_divide(7, 2), 3);
    assert_eq!(int_divide(-7, 2), -3);
    assert_eq!(int_divide(7, -2), -3);
    assert_eq!(int_divide(-7, -2), 3);
    assert_eq!(int_divide(i64::MIN, -1), i64::MAX);
}

#[test]
fn integer_modulo_matches_truncated_division() {
    assert_eq!(int_modulo(7, 2), 1);
    assert_eq!(int_modulo(-7, 2), -1);
    assert_eq!(int_modulo(7, -2), 1);
    assert_eq!(int_modulo(-7, -2), -1);
    assert_eq!(int_modulo(i64::MIN, -1), 0);
}

#[test]
fn real_arithmetic_is_exact_fixed_point() {
    // 2.5 * 4.0 == 10.0
    assert_eq!(rv(2_500_000).times(&rv(4_000_000)).units, 10_000_000);
    // 1.0 / 3.0 truncates to 0.333333
    assert_eq!(rv(1_000_000).divide(&rv(3_000_000)).units, 333_333);
    // 7.0 mod 2.0 == 1.0
    assert_eq!(rv(7_000_000).modulo(&rv(2_000_000)).units, 1_000_000);
    assert_eq!(rv(1_000_000).plus(&rv(2_000_000)).units, 3_000_000);
    assert_eq!(rv(i64::MAX).plus(&rv(1)).units, i64::MAX);
    assert_eq!(rv(5_000_000).minus(&rv(1_500_000)).units, 3_500_000);
    assert_eq!(rv(-3_000_000).min_of(&rv(2_000_000)).units, -3_000_000);
    assert_eq!(rv(-3_000_000).max_of(&rv(2_000_000)).units, 2_000_000);
}

#[test]
fn real_conversions() {
    assert_eq!(Real::from_integer(3).units, 3 * SCALE);
    assert_eq!(Real::from_boolean(true).units, SCALE);
    assert_eq!(Real::from_boolean(false).units, 0);
    assert_eq!(rv(2_700_000).truncate_to_integer(), 2);
    assert_eq!(rv(-2_700_000).truncate_to_integer(), -2);
}

#[test]
fn sine_and_cosine_match_the_stated_approximation() {
    assert_eq!(rv(0).sine().units, 0);
    assert_eq!(rv(1_570_796).sine().units, 999_999);
    assert_eq!(rv(3_141_593).sine().units, 0);
    assert_eq!(rv(3 * 1_570_796).sine().units, -999_999);
    assert_eq!(rv(1_000_000).sine().units, 840_218);
    assert_eq!(rv(0).cosine().units, 999_999);
}

#[test]
fn tangent_is_sine_over_cosine() {
    // At a quarter turn, sine and cosine agree, so the tangent is one.
    assert_eq!(rv(785_398).sine().units, 705_882);
    assert_eq!(rv(785_398).cosine().units, 705_882);
    assert_eq!(rv(785_398).tangent().units, 1_000_000);
}

#[test]
fn rng_is_deterministic_for_a_seed() {
    let mut a = Rng::seeded(42);
    let mut b = Rng::seeded(42);
    for _ in 0..16 {
        assert_eq!(a.next_u64(), b.next_u64());
    }
    let mut c = Rng::seeded(43);
    assert_ne!(a.next_u64(), c.next_u64());
}

#[test]
fn config_accepts_valid_parameters() {
    let c = Config::new(
        -10,
        10,
        rv(-1_000_000),
        rv(1_000_000),
        25,
        100,
        1000,
        rv(50_000),
        7,
        false,
    );
    let cfg = c.unwrap();
    assert_eq!(cfg.min_random_integer, -10);
    assert_eq!(cfg.eval_push_limit, 1000);
}

#[test]
fn config_rejects_inverted_integer_range() {
    let c = Config::new(
        10,
        -10,
        rv(0),
        rv(0),
        25,
        100,
        1000,
        rv(0),
        7,
        false,
    );
    assert_eq!(c.unwrap_err(), ConfigError::InvertedIntegerRange);
}

#[test]
fn config_rejects_inverted_float_range() {
    let c = Config::new(0, 0, rv(5), rv(-5), 25, 100, 1000, rv(0), 7, false);
    assert_eq!(c.unwrap_err(), ConfigError::InvertedFloatRange);
}

#[test]
fn config_rejects_zero_eval_push_limit() {
    let c = Config::new(0, 0, rv(0), rv(0), 25, 100, 0, rv(0), 7, false);
    assert_eq!(c.unwrap_err(), ConfigError::ZeroEvalPushLimit);
}

#[test]
fn config_rejects_zero_program_points() {
    let c = Config::new(0, 0, rv(0), rv(0), 25, 0, 1000, rv(0), 7, false);
    assert_eq!(c.unwrap_err(), ConfigError::ZeroProgramPoints);
}

#[test]
fn config_rejects_zero_random_expression_points() {
    let c = Config::new(0, 0, rv(0), rv(0), 0, 100, 1000, rv(0), 7, false);
    assert_eq!(c.unwrap_err(), ConfigError::ZeroRandomExpressionPoints);
}

#[test]
fn config_rejects_probability_outside_unit_interval() {
    let c = Config::new(
        0,
        0,
        rv(0),
        rv(0),
        25,
        100,
        1000,
        rv(2_000_000),
        7,
        false,
    );
    assert_eq!(c.unwrap_err(), ConfigError::InvalidNameProbability);
    let c2 = Config::new(0, 0, rv(0), rv(0), 25, 100, 1000, rv(-1), 7, false);
    assert_eq!(c2.unwrap_err(), ConfigError::InvalidNameProbability);
}
