use dice_roller::eval::EvalError;
use dice_roller::parser::parse;
use dice_roller::random::{RandomSource, StdRngSource};
use dice_roller::{roll_str, roll_str_with_rng, DiceError};

#[test]
fn determinism_same_seed() {
    let first = roll_str_with_rng("2d6 + 1d4", &mut StdRngSource::from_seed(7)).unwrap();
    let second = roll_str_with_rng("2d6 + 1d4", &mut StdRngSource::from_seed(7)).unwrap();
    assert_eq!(first, second);
}

#[test]
fn seeded_source_repeats_draws() {
    let mut a = StdRngSource::from_seed(11);
    let mut b = StdRngSource::from_seed(11);
    for _ in 0..16 {
        let x = a.draw(1, 1000);
        let y = b.draw(1, 1000);
        assert_eq!(x, y);
        assert!((1..=1000).contains(&x));
    }
}

#[test]
fn left_to_right_order() {
    let mut draws = StdRngSource::from_seed(9);
    let first = draws.draw(1, 6);
    let second = draws.draw(1, 6);
    let rolled = roll_str_with_rng("1d6 + 1d6", &mut StdRngSource::from_seed(9)).unwrap();
    assert_eq!(rolled, first + second);
}

#[test]
fn negation_of_die_roll() {
    let mut draws = StdRngSource::from_seed(3);
    let value = draws.draw(1, 20);
    let rolled = roll_str_with_rng("-1d20", &mut StdRngSource::from_seed(3)).unwrap();
    assert_eq!(rolled, -value);
}

#[test]
fn division_by_zero() {
    assert!(matches!(
        roll_str("1/0"),
        Err(DiceError::EvalError(EvalError::DivisionByZero))
    ));
}

#[test]
fn negative_exponent_rejected() {
    assert!(matches!(
        roll_str("2^(0-1)"),
        Err(DiceError::EvalError(EvalError::NegativeExponent))
    ));
}

#[test]
fn malformed_inputs_rejected() {
    assert!(matches!(parse("1d"), Err(_)));
    assert!(matches!(parse("(1+1"), Err(_)));
    assert!(matches!(parse("1 1"), Err(_)));
    assert!(matches!(parse(""), Err(_)));
    assert!(matches!(parse("+"), Err(_)));
    assert!(matches!(parse("2^3^4"), Err(_)));
}

#[test]
fn trailing_garbage_positions() {
    let d = parse("1d").unwrap_err();
    assert_eq!(d.pos, 1);
    let d = parse("1 1").unwrap_err();
    assert_eq!(d.pos, 2);
}

#[test]
fn arithmetic_and_precedence() {
    assert_eq!(roll_str("2+3*4").unwrap(), 14);
    assert_eq!(roll_str("2*3+4").unwrap(), 10);
    assert_eq!(roll_str("10-3-4").unwrap(), 3);
    assert_eq!(roll_str("2-3").unwrap(), -1);
    assert_eq!(roll_str("10/3").unwrap(), 3);
    assert_eq!(roll_str("2^10").unwrap(), 1024);
    assert_eq!(roll_str("0^0").unwrap(), 1);
    assert_eq!(roll_str("--1").unwrap(), 1);
    assert_eq!(roll_str("((((5))))").unwrap(), 5);
    assert_eq!(roll_str("  1 +  2 ").unwrap(), 3);
    assert_eq!(roll_str("2^2*3").unwrap(), 12);
}

#[test]
fn division_truncates_toward_zero() {
    assert_eq!(roll_str("(0-7)/2").unwrap(), -3);
    assert_eq!(roll_str("7/(0-2)").unwrap(), -3);
    assert_eq!(roll_str("(0-7)/(0-2)").unwrap(), 3);
}

#[test]
fn overflow_reported() {
    assert!(matches!(
        roll_str("2147483647+1"),
        Err(DiceError::EvalError(EvalError::Overflow))
    ));
    assert!(matches!(
        roll_str("2^31"),
        Err(DiceError::EvalError(EvalError::Overflow))
    ));
    assert!(matches!(
        roll_str("0-2147483647-2"),
        Err(DiceError::EvalError(EvalError::Overflow))
    ));
    assert!(matches!(
        roll_str("(0-2147483647-1)/(0-1)"),
        Err(DiceError::EvalError(EvalError::Overflow))
    ));
    assert!(matches!(
        roll_str("-(0-2147483647-1)"),
        Err(DiceError::EvalError(EvalError::Overflow))
    ));
    assert_eq!(roll_str("0-2147483647-1").unwrap(), i32::MIN);
    assert_eq!(roll_str("2147483647").unwrap(), i32::MAX);
}

#[test]
fn oversized_literal_is_a_parse_error() {
    assert!(matches!(parse("2147483648"), Err(_)));
    assert!(parse("2147483647").is_ok());
}

#[test]
fn literals_are_plain_digit_runs() {
    assert_eq!(roll_str("007").unwrap(), 7);
    assert_eq!(roll_str("0").unwrap(), 0);
    assert_eq!(roll_str("000").unwrap(), 0);
}

#[test]
fn dice_edge_cases() {
    assert_eq!(roll_str("3d1").unwrap(), 3);
    assert_eq!(roll_str("(0-5)d6").unwrap(), 0);
    assert_eq!(roll_str("0d6").unwrap(), 0);
    assert!(matches!(
        roll_str("1d0"),
        Err(DiceError::EvalError(EvalError::InvalidSides))
    ));
    assert!(matches!(
        roll_str("1d(0-4)"),
        Err(DiceError::EvalError(EvalError::InvalidSides))
    ));
    let v = roll_str("(2+2)d(2+2)").unwrap();
    assert!((4..=16).contains(&v));
    let w = roll_str("1d(2 + 2)").unwrap();
    assert!((1..=4).contains(&w));
}

#[test]
fn die_operands_evaluate_left_first() {
    let mut draws = StdRngSource::from_seed(21);
    let count = draws.draw(1, 3);
    let mut expected = 0;
    for _ in 0..count {
        expected += draws.draw(1, 6);
    }
    let rolled = roll_str_with_rng("(1d3)d6", &mut StdRngSource::from_seed(21)).unwrap();
    assert_eq!(rolled, expected);
}
